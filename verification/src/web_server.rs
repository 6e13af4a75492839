use vstd::prelude::*;
use vstd::string::StrSliceExecFns;
use crate::decimal::{parse_u8, parse_u8_spec};

verus! {

broadcast use vstd::string::group_string_axioms;

/// The pieces of `s` between dots, as `str::split('.')` gives them.
pub open spec fn split_dots(s: Seq<char>) -> Seq<Seq<char>>
    decreases s.len(),
{
    if s.len() == 0 {
        seq![seq![]]
    } else {
        let p = split_dots(s.drop_last());
        if s.last() == '.' {
            p.push(seq![])
        } else {
            p.update(p.len() - 1, p.last().push(s.last()))
        }
    }
}

proof fn lemma_split_dots_nonempty(s: Seq<char>)
    ensures
        split_dots(s).len() >= 1,
    decreases s.len(),
{
    if s.len() > 0 {
        lemma_split_dots_nonempty(s.drop_last());
    }
}

/// The four octets of a web server address: every dot-separated piece must
/// read as a `u8` and there must be at least four pieces; the first four
/// are the octets.
pub open spec fn ipv4_octets(addr: Seq<char>) -> Option<Seq<u8>> {
    let parts = split_dots(addr);
    if parts.len() >= 4 && forall|i: int| 0 <= i < parts.len() ==> (#[trigger] parse_u8_spec(parts[i])) is Some {
        Some(parts.take(4).map_values(|p: Seq<char>| parse_u8_spec(p)->0))
    } else {
        None
    }
}

/// Reads the four octets that the web server listens on from its address.
pub fn parse_ipv4_octets(addr: &str) -> (res: Option<[u8; 4]>)
    ensures
        match res {
            Some(o) => ipv4_octets(addr@) == Some(o@),
            None => ipv4_octets(addr@) is None,
        },
{
    let n = addr.unicode_len();
    let ghost s = addr@;
    let ghost mut done: Seq<Seq<char>> = seq![];
    let mut octets: Vec<u8> = Vec::new();
    let mut start: usize = 0;
    let mut i: usize = 0;
    assert(s.take(0) =~= Seq::<char>::empty());
    assert(s.subrange(0, 0) =~= Seq::<char>::empty());
    while i < n
        invariant
            start <= i <= n,
            n == s.len(),
            s == addr@,
            split_dots(s.take(i as int)) == done.push(s.subrange(start as int, i as int)),
            octets@.len() == done.len(),
            forall|j: int| 0 <= j < done.len() ==> parse_u8_spec(#[trigger] done[j]) == Some(octets@[j]),
        decreases n - i,
    {
        let c = addr.get_char(i);
        let ghost t = s.take(i + 1);
        assert(t.drop_last() == s.take(i as int));
        assert(t.last() == c);
        if c == '.' {
            let part = addr.substring_char(start, i);
            match parse_u8(part) {
                Some(v) => {
                    octets.push(v);
                    proof {
                        done = done.push(s.subrange(start as int, i as int));
                        assert(s.subrange((i + 1) as int, (i + 1) as int) =~= Seq::<char>::empty());
                    }
                    start = i + 1;
                },
                None => {
                    proof {
                        let cur = s.subrange(start as int, i as int);
                        let after = split_dots(s.take(i + 1));
                        assert(after == done.push(cur).push(seq![]));
                        assert(after[done.len() as int] == cur);
                        lemma_split_dots_stable(s, i + 1, n as int);
                        assert(s.take(n as int) == s);
                        assert(split_dots(s)[done.len() as int] == cur);
                        assert(parse_u8_spec(split_dots(s)[done.len() as int]) is None);
                    }
                    return None;
                },
            }
        } else {
            proof {
                assert(s.subrange(start as int, i + 1) == s.subrange(start as int, i as int).push(c));
            }
        }
        i = i + 1;
    }
    assert(s.take(n as int) == s);
    let last = addr.substring_char(start, n);
    match parse_u8(last) {
        Some(v) => {
            octets.push(v);
            proof {
                done = done.push(s.subrange(start as int, n as int));
            }
        },
        None => {
            proof {
                assert(split_dots(s)[done.len() as int] == s.subrange(start as int, n as int));
            }
            return None;
        },
    }
    if octets.len() < 4 {
        return None;
    }
    let res = [octets[0], octets[1], octets[2], octets[3]];
    proof {
        let parts = split_dots(s);
        assert(parts == done);
        assert(res@ =~= parts.take(4).map_values(|p: Seq<char>| parse_u8_spec(p)->0));
    }
    Some(res)
}

/// The answer of the web server to a request for the output file.
pub struct ServeResponse {
    /// The HTTP status code.
    pub status: u16,
    /// The body of the answer.
    pub body: String,
    /// Whether the answer carries a `Content-Type: text/plain` header.
    pub plain_text: bool,
}

/// Answers a request for the output file: its content with status 200 as
/// plain text when it could be read (`content` is `Some`), otherwise status
/// 404 with the body `Fichier introuvable`.
pub fn serve_response(content: Option<String>) -> (res: ServeResponse)
    ensures
        match content {
            Some(c) => res.status == 200 && res.body@ == c@ && res.plain_text,
            None => res.status == 404 && res.body@ == "Fichier introuvable"@ && !res.plain_text,
        },
{
    match content {
        Some(c) => ServeResponse { status: 200, body: c, plain_text: true },
        None => {
            let msg = "Fichier introuvable";
            ServeResponse { status: 404, body: msg.to_string(), plain_text: false }
        },
    }
}

/// What the refresh task does when it wakes up.
#[derive(Debug, Clone, Copy, PartialEq, Eq, Structural)]
pub enum RefreshAction {
    /// Nothing yet: the log file was just filtered at start-up.
    Wait,
    /// Filter the log file again and save the output file.
    Reparse,
}

/// One step of the refresh task: on its first round it only waits, on
/// every later round it filters the log file again. Returns the action and
/// whether the next round is still the first.
pub fn refresh_step(first_run: bool) -> (res: (RefreshAction, bool))
    ensures
        res.0 == (if first_run { RefreshAction::Wait } else { RefreshAction::Reparse }),
        !res.1,
{
    if first_run {
        (RefreshAction::Wait, false)
    } else {
        (RefreshAction::Reparse, false)
    }
}

/// The pieces that the split of a prefix has completed stay pieces of the
/// split of a longer prefix.
proof fn lemma_split_dots_stable(s: Seq<char>, k: int, m: int)
    requires
        0 <= k <= m <= s.len(),
    ensures
        split_dots(s.take(m)).len() >= split_dots(s.take(k)).len(),
        forall|j: int|
            0 <= j < split_dots(s.take(k)).len() - 1 ==> #[trigger] split_dots(s.take(m))[j] == split_dots(
                s.take(k),
            )[j],
    decreases m - k,
{
    if m > k {
        lemma_split_dots_stable(s, k, m - 1);
        assert(s.take(m).drop_last() == s.take(m - 1));
        lemma_split_dots_nonempty(s.take(m - 1));
    }
}

} // verus!
