//! The mathematical model of match extraction.
//!
//! A scan is modelled as a recursive spec function over the spans the engine
//! reports: from a position, take the leftmost match at or after it, turn its
//! spans into a record, and continue past it — past at least one byte when
//! the match is empty, so the scan always moves forward.

use vstd::prelude::*;
use crate::engine::caps_at;

verus! {

/// One located occurrence, at the specification level: the matched bytes,
/// one entry per declared capture group, and the byte span of the whole
/// match.
#[verifier::ext_equal]
pub ghost struct SpecMatch {
    pub full: Seq<u8>,
    pub groups: Seq<Option<Seq<u8>>>,
    pub start: int,
    pub end: int,
}

/// `[s, e)` is a well-formed half-open span of a text of length `n`.
pub open spec fn valid_span(s: int, e: int, n: int) -> bool {
    0 <= s && s <= e && e <= n
}

/// The span of the whole match among the reported spans `c`, with the
/// defensive fallback `(0, 0)` when the whole-match span is missing or out
/// of range.
pub open spec fn full_span(t: Seq<u8>, c: Seq<Option<(int, int)>>) -> (int, int) {
    if c.len() >= 1 {
        match c[0] {
            Some(sp) => if valid_span(sp.0, sp.1, t.len() as int) {
                sp
            } else {
                (0, 0)
            },
            None => (0, 0),
        }
    } else {
        (0, 0)
    }
}

/// A capture group's contribution to a record: the captured bytes when the
/// group participated with a span inside the text, absent otherwise.
pub open spec fn group_of(t: Seq<u8>, g: Option<(int, int)>) -> Option<Seq<u8>> {
    match g {
        Some(sp) => if valid_span(sp.0, sp.1, t.len() as int) {
            Some(t.subrange(sp.0, sp.1))
        } else {
            None
        },
        None => None,
    }
}

/// The record built from the reported spans `c` of one match in `t`.
pub open spec fn rec_of(t: Seq<u8>, c: Seq<Option<(int, int)>>) -> SpecMatch {
    let sp = full_span(t, c);
    SpecMatch {
        full: t.subrange(sp.0, sp.1),
        groups: if c.len() >= 1 {
            c.skip(1).map_values(|g: Option<(int, int)>| group_of(t, g))
        } else {
            Seq::empty()
        },
        start: sp.0,
        end: sp.1,
    }
}

/// Where the scan continues after a match reported `c` at position `pos`:
/// at the match's end, or one byte past it when the match was empty — and in
/// any case strictly past `pos` and never past `t.len() + 1`.
pub open spec fn next_scan_pos(t: Seq<u8>, pos: int, c: Seq<Option<(int, int)>>) -> int {
    let raw = if c.len() >= 1 {
        match c[0] {
            Some(sp) => if sp.1 > sp.0 {
                sp.1
            } else {
                sp.1 + 1
            },
            None => pos + 1,
        }
    } else {
        pos + 1
    };
    let ahead = if raw > pos {
        raw
    } else {
        pos + 1
    };
    if ahead > t.len() + 1 {
        t.len() as int + 1
    } else {
        ahead
    }
}

/// The records a left-to-right, non-overlapping scan of `t` with pattern `p`
/// yields from position `pos` on.
pub open spec fn scan_from(p: Seq<char>, t: Seq<u8>, pos: int) -> Seq<SpecMatch>
    decreases t.len() + 1 - pos,
{
    if pos < 0 || pos > t.len() {
        Seq::empty()
    } else {
        match caps_at(p, t, pos) {
            None => Seq::empty(),
            Some(c) => seq![rec_of(t, c)] + scan_from(p, t, next_scan_pos(t, pos, c)),
        }
    }
}

/// What a first-match-only extraction yields: the empty sequence, or exactly
/// the first record of the full scan.
pub open spec fn first_only(p: Seq<char>, t: Seq<u8>) -> Seq<SpecMatch> {
    let all = scan_from(p, t, 0);
    if all.len() == 0 {
        Seq::empty()
    } else {
        seq![all[0]]
    }
}

/// The records extraction yields for pattern `p`, text `t` and mode `all`.
pub open spec fn extract_spec(p: Seq<char>, t: Seq<u8>, all: bool) -> Seq<SpecMatch> {
    if all {
        scan_from(p, t, 0)
    } else {
        first_only(p, t)
    }
}

/// A record is well formed for text `t` when its span lies inside `t` and
/// `full` is exactly the text of that span.
pub open spec fn wf_match(t: Seq<u8>, m: SpecMatch) -> bool {
    &&& 0 <= m.start <= m.end <= t.len()
    &&& m.full == t.subrange(m.start, m.end)
}

/// Every record the model builds is well formed, however the engine reported
/// the spans: an unusable whole-match span falls back to the empty span.
pub proof fn lemma_rec_of_wf(t: Seq<u8>, c: Seq<Option<(int, int)>>)
    ensures
        wf_match(t, rec_of(t, c)),
{
    assert(valid_span(full_span(t, c).0, full_span(t, c).1, t.len() as int));
}

/// Every record of a scan is well formed for the text it scanned.
pub proof fn lemma_scan_wf(p: Seq<char>, t: Seq<u8>, pos: int)
    ensures
        forall|i: int| 0 <= i < scan_from(p, t, pos).len() ==> wf_match(t, #[trigger] scan_from(p, t, pos)[i]),
    decreases t.len() + 1 - pos,
{
    if pos < 0 || pos > t.len() {
    } else {
        match caps_at(p, t, pos) {
            None => {}
            Some(c) => {
                lemma_rec_of_wf(t, c);
                lemma_scan_wf(p, t, next_scan_pos(t, pos, c));
                let s = scan_from(p, t, pos);
                let rest = scan_from(p, t, next_scan_pos(t, pos, c));
                assert(s == seq![rec_of(t, c)] + rest);
                assert forall|i: int| 0 <= i < s.len() implies wf_match(t, s[i]) by {
                    if i == 0 {
                        assert(s[i] == rec_of(t, c));
                    } else {
                        assert(s[i] == rest[i - 1]);
                    }
                }
            }
        }
    }
}

/// A first-match-only extraction yields the empty sequence when the full
/// scan finds nothing, and otherwise exactly the full scan's first record.
pub proof fn lemma_first_only_prefix(p: Seq<char>, t: Seq<u8>)
    ensures
        first_only(p, t).len() <= 1,
        first_only(p, t).len() == 0 ==> scan_from(p, t, 0).len() == 0,
        first_only(p, t).len() == 1 ==> scan_from(p, t, 0).len() >= 1
            && first_only(p, t)[0] == scan_from(p, t, 0)[0],
{
}

} // verus!
