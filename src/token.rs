//! Placeholder tokens of the form `{{ key }}`.

use vstd::prelude::*;
use crate::text::{
    CharClass, chars_of, find_pair, find_pair_in, lemma_find_pair, strip, strip_range,
};

verus! {

/// The key of a token's literal span: white space trimmed, then stray opening and
/// closing braces, then white space again.
pub open spec fn token_key(span: Seq<char>) -> Seq<char> {
    strip(strip(strip(strip(span, CharClass::White), CharClass::Open), CharClass::Close), CharClass::White)
}

/// The tokens of `s` from index `from` on, as `(key, span)` pairs, left to right.
/// A token runs from the first `{{` to the next `}}`; scanning resumes after it.
/// An opening marker with no closing marker after it ends the scan.
pub open spec fn scan_from(s: Seq<char>, from: int) -> Seq<(Seq<char>, Seq<char>)>
    decreases s.len() - from,
    via scan_from_decreases
{
    if from < 0 {
        seq![]
    } else {
        match find_pair(s, from, '{') {
            None => seq![],
            Some(st) => match find_pair(s, st, '}') {
                None => seq![],
                Some(e) => {
                    let span = s.subrange(st, e + 2);
                    seq![(token_key(span), span)] + scan_from(s, e + 2)
                },
            },
        }
    }
}

#[via_fn]
proof fn scan_from_decreases(s: Seq<char>, from: int) {
    if from >= 0 {
        lemma_find_pair(s, from, '{');
        if let Some(st) = find_pair(s, from, '{') {
            lemma_find_pair(s, st, '}');
        }
    }
}

/// The tokens of `s`, as `(key, span)` pairs.
pub open spec fn scan(s: Seq<char>) -> Seq<(Seq<char>, Seq<char>)> {
    scan_from(s, 0)
}

/// The views of a list of `(key, span)` slices.
pub open spec fn pairs_view(r: Seq<(&str, &str)>) -> Seq<(Seq<char>, Seq<char>)> {
    r.map_values(|p: (&str, &str)| (p.0@, p.1@))
}

/// Finds the placeholder tokens of `text`: each one's key and its literal span.
pub fn str_to_insert_position<'a>(text: &'a str) -> (r: Vec<(&'a str, &'a str)>)
    ensures
        pairs_view(r@) == scan(text@),
{
    let v = chars_of(text);
    let mut result: Vec<(&'a str, &'a str)> = Vec::new();
    let mut cur: usize = 0;
    loop
        invariant
            v@ == text@,
            cur <= v@.len(),
            scan(text@) == pairs_view(result@) + scan_from(text@, cur as int),
        decreases v@.len() - cur,
    {
        proof {
            lemma_find_pair(v@, cur as int, '{');
        }
        let st = match find_pair_in(&v, cur, '{') {
            None => {
                assert(pairs_view(result@) + scan_from(text@, cur as int) =~= pairs_view(result@));
                return result;
            },
            Some(st) => st,
        };
        proof {
            lemma_find_pair(v@, st as int, '}');
        }
        let e = match find_pair_in(&v, st, '}') {
            None => {
                assert(pairs_view(result@) + scan_from(text@, cur as int) =~= pairs_view(result@));
                return result;
            },
            Some(e) => e,
        };
        let end = e + 2;
        let (a0, b0) = strip_range(&v, st, end, CharClass::White);
        let (a1, b1) = strip_range(&v, a0, b0, CharClass::Open);
        let (a2, b2) = strip_range(&v, a1, b1, CharClass::Close);
        let (a3, b3) = strip_range(&v, a2, b2, CharClass::White);
        let key = text.substring_char(a3, b3);
        let span = text.substring_char(st, end);
        let ghost old_result = result@;
        result.push((key, span));
        proof {
            assert(pairs_view(result@) =~= pairs_view(old_result) + seq![(key@, span@)]);
            assert(scan_from(text@, cur as int) == seq![(key@, span@)] + scan_from(text@, end as int));
            assert(scan(text@) =~= pairs_view(result@) + scan_from(text@, end as int));
        }
        cur = end;
    }
}

} // verus!
