//! Parsing of dynamic-loader listing output.
//!
//! The library-discovery collaborator prints one line per loaded object,
//! `name => path (address)`. This module extracts the paths: on each line,
//! the text after the first ` => ` separator up to the first space, kept
//! when non-empty. The listing itself is produced outside this crate; only
//! bytes come in here.

use vstd::prelude::*;
use vstd::slice::slice_subrange;

use crate::text::lossy_chars;
use crate::text::lossy_string;

verus! {

/// Byte value of the line separator.
pub open spec fn newline() -> u8 {
    10u8
}

/// Byte value of the space character.
pub open spec fn space() -> u8 {
    32u8
}

/// Index of the first occurrence of `b` in `s`, or `s.len()` if it has
/// none.
pub open spec fn first_byte(s: Seq<u8>, b: u8) -> int
    decreases s.len(),
{
    if s.len() == 0 {
        0
    } else if s[0] == b {
        0
    } else {
        1 + first_byte(s.drop_first(), b)
    }
}

/// `first_byte` is in bounds, lands on `b` unless `s` has none, and nothing
/// before it is `b`.
pub proof fn lemma_first_byte(s: Seq<u8>, b: u8)
    ensures
        0 <= first_byte(s, b) <= s.len(),
        first_byte(s, b) < s.len() ==> s[first_byte(s, b)] == b,
        forall|j: int| 0 <= j < first_byte(s, b) ==> s[j] != b,
    decreases s.len(),
{
    if s.len() != 0 && s[0] != b {
        lemma_first_byte(s.drop_first(), b);
        assert forall|j: int| 0 <= j < first_byte(s, b) implies s[j] != b by {
            if j > 0 {
                assert(s.drop_first()[j - 1] != b);
            }
        }
    }
}

/// The ` => ` separator stands at position `i` of `s`.
pub open spec fn arrow_at(s: Seq<u8>, i: int) -> bool {
    &&& 0 <= i
    &&& i + 4 <= s.len()
    &&& s[i] == space()
    &&& s[i + 1] == 61u8  // '='
    &&& s[i + 2] == 62u8  // '>'
    &&& s[i + 3] == space()
}

/// Index of the first ` => ` separator of `s`, or `s.len()` if it has none.
pub open spec fn first_arrow(s: Seq<u8>) -> int
    decreases s.len(),
{
    if s.len() == 0 {
        0
    } else if arrow_at(s, 0) {
        0
    } else {
        1 + first_arrow(s.drop_first())
    }
}

/// `first_arrow` is in bounds, lands on a separator unless `s` has none,
/// and no separator stands before it.
pub proof fn lemma_first_arrow(s: Seq<u8>)
    ensures
        0 <= first_arrow(s) <= s.len(),
        first_arrow(s) < s.len() ==> arrow_at(s, first_arrow(s)),
        forall|j: int| 0 <= j < first_arrow(s) ==> !arrow_at(s, j),
    decreases s.len(),
{
    if s.len() != 0 && !arrow_at(s, 0) {
        let d = s.drop_first();
        lemma_first_arrow(d);
        assert forall|j: int| 0 <= j <= d.len() implies (arrow_at(d, j) <==> arrow_at(
            s,
            j + 1,
        )) by {
            if arrow_at(d, j) {
                assert(s[j + 1] == d[j]);
                assert(s[j + 2] == d[j + 1]);
                assert(s[j + 3] == d[j + 2]);
                assert(s[j + 4] == d[j + 3]);
            }
            if arrow_at(s, j + 1) {
                assert(d[j] == s[j + 1]);
                assert(d[j + 1] == s[j + 2]);
                assert(d[j + 2] == s[j + 3]);
                assert(d[j + 3] == s[j + 4]);
            }
        }
        if first_arrow(d) < d.len() {
            assert(arrow_at(s, first_arrow(s)));
        }
        assert forall|j: int| 0 <= j < first_arrow(s) implies !arrow_at(s, j) by {
            if j > 0 {
                assert(!arrow_at(d, j - 1));
            }
        }
    }
}

/// The lines of `s`: the segments between line separators, in order. A
/// buffer without a separator is one line; a trailing separator yields a
/// final empty line, which carries no path.
pub open spec fn split_lines(s: Seq<u8>) -> Seq<Seq<u8>>
    decreases s.len(),
    via split_lines_decreases
{
    let nl = first_byte(s, newline());
    if nl == s.len() {
        seq![s]
    } else {
        seq![s.subrange(0, nl)] + split_lines(s.subrange(nl + 1, s.len() as int))
    }
}

#[via_fn]
proof fn split_lines_decreases(s: Seq<u8>) {
    lemma_first_byte(s, newline());
}

/// The library path one listing line names: the text after the first ` => `
/// separator up to the first space, if the line has the separator and that
/// text is non-empty.
pub open spec fn line_library(line: Seq<u8>) -> Option<Seq<u8>> {
    let a = first_arrow(line);
    if a == line.len() {
        None
    } else {
        let rest = line.subrange(a + 4, line.len() as int);
        let tok = rest.subrange(0, first_byte(rest, space()));
        if tok.len() > 0 {
            Some(tok)
        } else {
            None
        }
    }
}

/// The paths of a whole listing: each line's path, in line order, lines
/// without one skipped.
pub open spec fn ldd_paths(lines: Seq<Seq<u8>>) -> Seq<Seq<u8>>
    decreases lines.len(),
{
    if lines.len() == 0 {
        Seq::empty()
    } else {
        let rest = ldd_paths(lines.drop_first());
        match line_library(lines.first()) {
            Some(p) => seq![p] + rest,
            None => rest,
        }
    }
}

/// Finds the first occurrence of `b` in `s`, or `s.len()`.
fn find_byte(s: &[u8], b: u8) -> (r: usize)
    ensures
        r == first_byte(s@, b),
{
    proof {
        lemma_first_byte(s@, b);
    }
    let n = s.len();
    let mut i: usize = 0;
    while i < n && s[i] != b
        invariant
            i <= n,
            n == s@.len(),
            forall|j: int| 0 <= j < i ==> s@[j] != b,
            0 <= first_byte(s@, b) <= s@.len(),
            first_byte(s@, b) < s@.len() ==> s@[first_byte(s@, b)] == b,
            forall|j: int| 0 <= j < first_byte(s@, b) ==> s@[j] != b,
        decreases n - i,
    {
        i = i + 1;
    }
    i
}

/// Finds the first ` => ` separator of `s`, or `s.len()`.
fn find_arrow(s: &[u8]) -> (r: usize)
    ensures
        r == first_arrow(s@),
{
    proof {
        lemma_first_arrow(s@);
    }
    let n = s.len();
    if n < 4 {
        proof {
            assert forall|j: int| 0 <= j < s@.len() implies !arrow_at(s@, j) by {}
        }
        return n;
    }
    let mut i: usize = 0;
    while i <= n - 4 && !(s[i] == 32 && s[i + 1] == 61 && s[i + 2] == 62 && s[i + 3] == 32)
        invariant
            i <= n,
            n == s@.len(),
            n >= 4,
            i <= n - 3,
            forall|j: int| 0 <= j < i ==> !arrow_at(s@, j),
            0 <= first_arrow(s@) <= s@.len(),
            first_arrow(s@) < s@.len() ==> arrow_at(s@, first_arrow(s@)),
            forall|j: int| 0 <= j < first_arrow(s@) ==> !arrow_at(s@, j),
        decreases n - i,
    {
        i = i + 1;
    }
    if i <= n - 4 {
        proof {
            assert(arrow_at(s@, i as int));
        }
        i
    } else {
        proof {
            assert forall|j: int| 0 <= j < s@.len() implies !arrow_at(s@, j) by {
                if j >= i {
                    assert(j + 4 > s@.len());
                }
            }
            assert(first_arrow(s@) == s@.len());
        }
        n
    }
}

/// Extracts the path one listing line names, converted lossily to text, or
/// `None` for a line without one.
fn parse_line(line: &[u8]) -> (r: Option<String>)
    ensures
        r is Some <==> line_library(line@) is Some,
        r matches Some(s) ==> s@ == lossy_chars(line_library(line@).unwrap()),
{
    let a = find_arrow(line);
    proof {
        lemma_first_arrow(line@);
    }
    if a == line.len() {
        return None;
    }
    let rest = slice_subrange(line, a + 4, line.len());
    let sp = find_byte(rest, 32);
    proof {
        lemma_first_byte(rest@, space());
    }
    if sp == 0 {
        proof {
            assert(line_library(line@) is None);
        }
        return None;
    }
    let tok = slice_subrange(rest, 0, sp);
    proof {
        assert(tok@ == line_library(line@).unwrap());
    }
    Some(lossy_string(tok))
}

/// Processes every line of `rest`, appending each path found to `acc`.
fn collect_paths(rest: &[u8], acc: &mut Vec<String>)
    ensures
        final(acc).deep_view() == old(acc).deep_view() + ldd_paths(split_lines(rest@)).map_values(
            |p: Seq<u8>| lossy_chars(p),
        ),
    decreases rest@.len(),
{
    proof {
        lemma_first_byte(rest@, newline());
    }
    let nl = find_byte(rest, 10);
    let line = slice_subrange(rest, 0, nl);
    proof {
        if nl == rest@.len() {
            assert(line@ =~= rest@);
            assert(split_lines(rest@) == seq![rest@]);
            assert(split_lines(rest@).drop_first() =~= Seq::<Seq<u8>>::empty());
            assert(split_lines(rest@).first() == rest@);
        }
    }
    let ghost pre = acc.deep_view();
    match parse_line(line) {
        Some(p) => {
            let ghost pv = p@;
            acc.push(p);
            proof {
                assert(acc.deep_view() =~= pre.push(pv));
            }
        },
        None => {},
    }
    if nl < rest.len() {
        let tail = slice_subrange(rest, nl + 1, rest.len());
        proof {
            assert(split_lines(rest@).first() == line@);
            assert(split_lines(rest@).drop_first() =~~= split_lines(tail@));
            assert(ldd_paths(split_lines(rest@).drop_first()) == ldd_paths(split_lines(tail@)));
        }
        collect_paths(tail, acc);
        proof {
            let lines = split_lines(rest@);
            let rec = ldd_paths(split_lines(tail@));
            if line_library(line@) is Some {
                assert(ldd_paths(lines) == seq![line_library(line@).unwrap()] + rec);
            } else {
                assert(ldd_paths(lines) == rec);
            }
            assert(acc.deep_view() =~= old(acc).deep_view() + ldd_paths(lines).map_values(
                |p: Seq<u8>| lossy_chars(p),
            ));
        }
    } else {
        proof {
            let lines = split_lines(rest@);
            assert(lines.drop_first().len() == 0);
            assert(ldd_paths(lines.drop_first()) == Seq::<Seq<u8>>::empty());
            if line_library(line@) is Some {
                assert(ldd_paths(lines) == seq![line_library(line@).unwrap()]
                    + Seq::<Seq<u8>>::empty());
            } else {
                assert(ldd_paths(lines) == Seq::<Seq<u8>>::empty());
            }
            assert(acc.deep_view() =~= old(acc).deep_view() + ldd_paths(lines).map_values(
                |p: Seq<u8>| lossy_chars(p),
            ));
        }
    }
}

/// Parses the whole listing: one path per line that names one, in line
/// order, lossily converted to text.
pub fn parse_ldd_libraries(out: &[u8]) -> (r: Vec<String>)
    ensures
        r.deep_view() == ldd_paths(split_lines(out@)).map_values(|p: Seq<u8>| lossy_chars(p)),
{
    let mut acc: Vec<String> = Vec::new();
    collect_paths(out, &mut acc);
    proof {
        assert(acc.deep_view() =~= ldd_paths(split_lines(out@)).map_values(
            |p: Seq<u8>| lossy_chars(p),
        ));
    }
    acc
}

} // verus!
