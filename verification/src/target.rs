//! What a target on the command line means: a port, a process id, or a name.
use vstd::prelude::*;
use crate::text::{chars_of, dec_int, dec_nat, split, split_chars, string_of};
use crate::num::{parse_i32, parse_i32_chars, parse_u16, parse_u16_chars};

verus! {

/// A target on the command line.
pub enum Target {
    /// `:8080` or `:8080/tcp`: whatever listens on this port.
    Port(u16),
    /// `4123`: exactly this process id.
    Pid(i32),
    /// Anything else: processes whose name contains (or is) this text.
    Name(String),
}

/// The mathematical value of a `Target`.
pub enum TargetView {
    Port(u16),
    Pid(i32),
    Name(Seq<char>),
}

impl View for Target {
    type V = TargetView;

    open spec fn view(&self) -> TargetView {
        match self {
            Target::Port(p) => TargetView::Port(*p),
            Target::Pid(p) => TargetView::Pid(*p),
            Target::Name(n) => TargetView::Name(n@),
        }
    }
}

/// How the text `t` is read as a target: a leading `':'` then a port number
/// (anything from a `'/'` on is ignored) is a port; else a number is a process
/// id; else it is a name.
pub open spec fn target_of(t: Seq<char>) -> TargetView {
    if t.len() > 0 && t[0] == ':' && parse_u16(split(t.drop_first(), '/')[0]) is Some {
        TargetView::Port(parse_u16(split(t.drop_first(), '/')[0])->0)
    } else if parse_i32(t) is Some {
        TargetView::Pid(parse_i32(t)->0)
    } else {
        TargetView::Name(t)
    }
}

/// Reads a command-line target.
pub fn classify(t: &str) -> (r: Target)
    ensures
        r@ == target_of(t@),
{
    let cs = chars_of(t);
    if cs.len() > 0 && cs[0] == ':' {
        let rest = crate::text::skip_chars(cs.as_slice(), 1);
        assert(rest@ =~= t@.drop_first());
        let pieces = split_chars(rest.as_slice(), '/');
        proof {
            crate::text::lemma_split_nonempty(rest@, '/');
        }
        match parse_u16_chars(pieces[0].as_slice()) {
            Some(p) => {
                return Target::Port(p);
            },
            None => {},
        }
    }
    match parse_i32_chars(cs.as_slice()) {
        Some(pid) => Target::Pid(pid),
        None => Target::Name(string_of(cs.as_slice())),
    }
}

/// A colon and a port number is a port target.
pub proof fn law_port_target(port: u16)
    ensures
        target_of(":"@ + dec_nat(port as nat)) == TargetView::Port(port),
{
    let d = dec_nat(port as nat);
    let t = ":"@ + d;
    reveal_strlit(":");
    crate::num::lemma_dec_digits(port as nat);
    crate::num::law_parse_unsigned_dec(port as nat, 0xffff);
    assert(t.drop_first() =~= d);
    assert forall|i: int| 0 <= i < d.len() implies d[i] != '/' by {
        assert(crate::num::digit_value(d[i], 10) is Some);
    }
    crate::text::lemma_split_whole(d, '/');
}

/// A colon, a port number and a protocol after a slash (`:8080/tcp`) is a port target.
pub proof fn law_port_target_with_protocol(port: u16, proto: Seq<char>)
    ensures
        target_of(":"@ + dec_nat(port as nat) + "/"@ + proto) == TargetView::Port(port),
{
    let d = dec_nat(port as nat);
    let t = ":"@ + d + "/"@ + proto;
    reveal_strlit(":");
    reveal_strlit("/");
    crate::num::lemma_dec_digits(port as nat);
    crate::num::law_parse_unsigned_dec(port as nat, 0xffff);
    let rest = d + "/"@ + proto;
    assert(t.drop_first() =~= rest);
    assert forall|i: int| 0 <= i < d.len() implies d[i] != '/' by {
        assert(crate::num::digit_value(d[i], 10) is Some);
    }
    crate::text::lemma_split_whole(d, '/');
    let ds = d + "/"@;
    assert(ds.drop_last() =~= d);
    assert(split(ds, '/') == seq![d].push(Seq::<char>::empty()));
    assert(rest =~= ds + proto);
    crate::text::lemma_split_extend(ds, proto, '/');
}

/// A number is a process-id target.
pub proof fn law_pid_target(pid: i32)
    ensures
        target_of(dec_int(pid as int)) == TargetView::Pid(pid),
{
    crate::num::law_parse_i32_dec(pid);
    let t = dec_int(pid as int);
    if pid < 0 {
        assert(t[0] == '-');
    } else {
        crate::num::lemma_dec_digits(pid as nat);
        assert(crate::num::digit_value(t[0], 10) is Some);
    }
}

} // verus!
