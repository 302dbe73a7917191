//! The command grammar: classifies one input line (a byte string, without
//! its trailing newline) as Connect, Disconnect, Pair or Unrecognized, and
//! extracts the typed payloads.

use vstd::prelude::*;
use vstd::slice::{slice_index_get, slice_subrange, slice_to_vec};

verus! {

/// `b'0'`
pub const DIGIT_LO: u8 = 48;

/// `b'9'`
pub const DIGIT_HI: u8 = 57;

/// `b'.'`
pub const DOT: u8 = 46;

/// `b':'`
pub const COLON: u8 = 58;

/// `b'-'`
pub const DASH: u8 = 45;

/// `b'c'`
pub const LETTER_C: u8 = 99;

/// `b'd'`
pub const LETTER_D: u8 = 100;

/// `b'p'`
pub const LETTER_P: u8 = 112;

/// An ASCII decimal digit.
pub open spec fn is_digit(b: u8) -> bool {
    DIGIT_LO <= b <= DIGIT_HI
}

/// The separators of `s` are exactly the positions `i1 < i2 < i3` (dots) and
/// `i4` (colon), every other byte is a digit, and every one of the five
/// digit segments so delimited is nonempty: `s` matches
/// `\d+\.\d+\.\d+\.\d+:\d+` with the dots at `i1`, `i2`, `i3` and the colon
/// at `i4`.
pub open spec fn addr_split_at(s: Seq<u8>, i1: int, i2: int, i3: int, i4: int) -> bool {
    &&& 1 <= i1
    &&& i1 + 1 < i2
    &&& i2 + 1 < i3
    &&& i3 + 1 < i4
    &&& i4 + 1 < s.len()
    &&& s[i1] == DOT
    &&& s[i2] == DOT
    &&& s[i3] == DOT
    &&& s[i4] == COLON
    &&& forall|j: int|
        0 <= j < s.len() && j != i1 && j != i2 && j != i3 && j != i4 ==> is_digit(s[j])
}

/// `s` matches the address pattern `\d+\.\d+\.\d+\.\d+:\d+` (a dotted quad
/// and a port, syntactically: octet and port ranges are not checked).
pub open spec fn is_addr(s: Seq<u8>) -> bool {
    exists|i1: int, i2: int, i3: int, i4: int| addr_split_at(s, i1, i2, i3, i4)
}

/// First position at or after `i` that does not hold a digit (or the end of
/// `s`): where a maximal digit run starting at `i` ends.
pub open spec fn digit_run_end(s: Seq<u8>, i: int) -> int
    decreases s.len() - i,
{
    if i < 0 || i >= s.len() || !is_digit(s[i]) {
        i
    } else {
        digit_run_end(s, i + 1)
    }
}

/// `digit_run_end` names the unique maximal digit run: everything from the
/// start to it is a digit, and it sits at a non-digit or at the end.
pub proof fn lemma_digit_run_end(s: Seq<u8>, i: int)
    requires
        0 <= i <= s.len(),
    ensures
        i <= digit_run_end(s, i) <= s.len(),
        forall|j: int| i <= j < digit_run_end(s, i) ==> is_digit(s[j]),
        digit_run_end(s, i) < s.len() ==> !is_digit(s[digit_run_end(s, i)]),
    decreases s.len() - i,
{
    if i < s.len() && is_digit(s[i]) {
        lemma_digit_run_end(s, i + 1);
    }
}

/// Any stretch of digits from `i` that stops at a non-digit (or the end)
/// is the maximal digit run from `i`.
pub proof fn lemma_digit_run_end_unique(s: Seq<u8>, i: int, e: int)
    requires
        0 <= i <= e <= s.len(),
        forall|j: int| i <= j < e ==> is_digit(s[j]),
        e < s.len() ==> !is_digit(s[e]),
    ensures
        digit_run_end(s, i) == e,
    decreases s.len() - i,
{
    if i < s.len() && is_digit(s[i]) {
        assert(i < e);
        lemma_digit_run_end_unique(s, i + 1, e);
    }
}

/// In an address split, the separator positions are exactly the ends of the
/// successive maximal digit runs: the split, if any, is unique, and a
/// left-to-right scan finds it.
pub proof fn lemma_addr_split_runs(s: Seq<u8>, i1: int, i2: int, i3: int, i4: int)
    requires
        addr_split_at(s, i1, i2, i3, i4),
    ensures
        digit_run_end(s, 0) == i1,
        digit_run_end(s, i1 + 1) == i2,
        digit_run_end(s, i2 + 1) == i3,
        digit_run_end(s, i3 + 1) == i4,
        digit_run_end(s, i4 + 1) == s.len(),
{
    lemma_digit_run_end_unique(s, 0, i1);
    lemma_digit_run_end_unique(s, i1 + 1, i2);
    lemma_digit_run_end_unique(s, i2 + 1, i3);
    lemma_digit_run_end_unique(s, i3 + 1, i4);
    lemma_digit_run_end_unique(s, i4 + 1, s.len() as int);
}

/// Does position `j` of `s` hold a decimal digit?
fn digit_at(s: &[u8], j: usize) -> (r: bool)
    requires
        j < s@.len(),
    ensures
        r == is_digit(s@[j as int]),
{
    let b = *slice_index_get(s, j);
    b >= DIGIT_LO && b <= DIGIT_HI
}

/// Walks to the end of the maximal digit run of `s` that starts at `from`.
fn scan_digits(s: &[u8], from: usize) -> (e: usize)
    requires
        from <= s@.len(),
    ensures
        from <= e <= s@.len(),
        e as int == digit_run_end(s@, from as int),
{
    let mut j = from;
    while j < s.len() && digit_at(s, j)
        invariant
            from <= j <= s@.len(),
            digit_run_end(s@, from as int) == digit_run_end(s@, j as int),
        decreases s@.len() - j,
    {
        j = j + 1;
    }
    j
}

/// Decides `is_addr`: does the whole of `s` match `\d+\.\d+\.\d+\.\d+:\d+`?
pub fn check_addr(s: &[u8]) -> (r: bool)
    ensures
        r == is_addr(s@),
{
    let n = s.len();
    let e1 = scan_digits(s, 0);
    if e1 == 0 || e1 == n || *slice_index_get(s, e1) != DOT {
        proof {
            if is_addr(s@) {
                let (i1, i2, i3, i4) =
                    choose|i1: int, i2: int, i3: int, i4: int| addr_split_at(s@, i1, i2, i3, i4);
                lemma_addr_split_runs(s@, i1, i2, i3, i4);
                assert(false);
            }
        }
        return false;
    }
    let e2 = scan_digits(s, e1 + 1);
    if e2 == e1 + 1 || e2 == n || *slice_index_get(s, e2) != DOT {
        proof {
            if is_addr(s@) {
                let (i1, i2, i3, i4) =
                    choose|i1: int, i2: int, i3: int, i4: int| addr_split_at(s@, i1, i2, i3, i4);
                lemma_addr_split_runs(s@, i1, i2, i3, i4);
                assert(false);
            }
        }
        return false;
    }
    let e3 = scan_digits(s, e2 + 1);
    if e3 == e2 + 1 || e3 == n || *slice_index_get(s, e3) != DOT {
        proof {
            if is_addr(s@) {
                let (i1, i2, i3, i4) =
                    choose|i1: int, i2: int, i3: int, i4: int| addr_split_at(s@, i1, i2, i3, i4);
                lemma_addr_split_runs(s@, i1, i2, i3, i4);
                assert(false);
            }
        }
        return false;
    }
    let e4 = scan_digits(s, e3 + 1);
    if e4 == e3 + 1 || e4 == n || *slice_index_get(s, e4) != COLON {
        proof {
            if is_addr(s@) {
                let (i1, i2, i3, i4) =
                    choose|i1: int, i2: int, i3: int, i4: int| addr_split_at(s@, i1, i2, i3, i4);
                lemma_addr_split_runs(s@, i1, i2, i3, i4);
                assert(false);
            }
        }
        return false;
    }
    let e5 = scan_digits(s, e4 + 1);
    if e5 == e4 + 1 || e5 != n {
        proof {
            if is_addr(s@) {
                let (i1, i2, i3, i4) =
                    choose|i1: int, i2: int, i3: int, i4: int| addr_split_at(s@, i1, i2, i3, i4);
                lemma_addr_split_runs(s@, i1, i2, i3, i4);
                assert(false);
            }
        }
        return false;
    }
    proof {
        lemma_digit_run_end(s@, 0);
        lemma_digit_run_end(s@, e1 + 1);
        lemma_digit_run_end(s@, e2 + 1);
        lemma_digit_run_end(s@, e3 + 1);
        lemma_digit_run_end(s@, e4 + 1);
        assert(addr_split_at(s@, e1 as int, e2 as int, e3 as int, e4 as int));
    }
    true
}

/// `s` is exactly six decimal digits: a pairing code.
pub open spec fn is_code(s: Seq<u8>) -> bool {
    s.len() == 6 && forall|i: int| 0 <= i < 6 ==> is_digit(s[i])
}

/// Decides `is_code`.
pub fn check_code(s: &[u8]) -> (r: bool)
    ensures
        r == is_code(s@),
{
    if s.len() != 6 {
        return false;
    }
    let mut i: usize = 0;
    while i < 6
        invariant
            0 <= i <= 6,
            s@.len() == 6,
            forall|j: int| 0 <= j < i ==> is_digit(s@[j]),
        decreases 6 - i,
    {
        if !digit_at(s, i) {
            return false;
        }
        i = i + 1;
    }
    true
}

/// The line matches `^c-(\d+\.\d+\.\d+\.\d+:\d+)$`: a Connect command whose
/// address is everything after the `c-` prefix.
pub open spec fn is_connect_line(s: Seq<u8>) -> bool {
    &&& s.len() >= 2
    &&& s[0] == LETTER_C
    &&& s[1] == DASH
    &&& is_addr(s.subrange(2, s.len() as int))
}

/// The line matches `^d-(.+)$`: a Disconnect command whose target is the
/// nonempty remainder after the `d-` prefix, with no further validation.
pub open spec fn is_disconnect_line(s: Seq<u8>) -> bool {
    &&& s.len() >= 3
    &&& s[0] == LETTER_D
    &&& s[1] == DASH
}

/// The line matches `^p-(\d+\.\d+\.\d+\.\d+:\d+)-(\d{6})$`: a Pair command,
/// an address and a six-digit code separated by a dash after the `p-`
/// prefix. Since the code is exactly six digits and ends the line, the
/// separating dash can only sit seven bytes from the end.
pub open spec fn is_pair_line(s: Seq<u8>) -> bool {
    &&& s.len() >= 2
    &&& s[0] == LETTER_P
    &&& s[1] == DASH
    &&& exists|k: int|
        2 < k < s.len() && s[k] == DASH && is_addr(s.subrange(2, k)) && is_code(
            s.subrange(k + 1, s.len() as int),
        )
}

/// One parsed command, the typed payloads extracted from the line.
/// Payload text is carried as the line's bytes, verbatim.
#[derive(Debug, PartialEq, Eq)]
pub enum Command {
    Connect { address: Vec<u8> },
    Disconnect { target: Vec<u8> },
    Pair { address: Vec<u8>, code: Vec<u8> },
    Unrecognized,
}

/// At most one of the three line patterns matches any given line: the three
/// command prefixes differ in their first byte.
pub proof fn lemma_line_classes_disjoint(s: Seq<u8>)
    ensures
        !(is_connect_line(s) && is_disconnect_line(s)),
        !(is_connect_line(s) && is_pair_line(s)),
        !(is_disconnect_line(s) && is_pair_line(s)),
{
}

/// Classifies one line (without its trailing newline) as the first matching
/// pattern among Connect, Disconnect and Pair, extracting the captured
/// payloads verbatim; a line matching none of them is Unrecognized.
pub fn parse(line: &[u8]) -> (c: Command)
    ensures
        is_connect_line(line@) ==> (c matches Command::Connect { address } && address@
            == line@.subrange(2, line@.len() as int)),
        is_disconnect_line(line@) ==> (c matches Command::Disconnect { target } && target@
            == line@.subrange(2, line@.len() as int)),
        is_pair_line(line@) ==> (c matches Command::Pair { address, code } && address@
            == line@.subrange(2, line@.len() - 7) && code@ == line@.subrange(
            line@.len() - 6,
            line@.len() as int,
        )),
        !is_connect_line(line@) && !is_disconnect_line(line@) && !is_pair_line(line@) ==> c
            == Command::Unrecognized,
        (c matches Command::Connect { .. }) ==> is_connect_line(line@),
        (c matches Command::Disconnect { .. }) ==> is_disconnect_line(line@),
        (c matches Command::Pair { .. }) ==> is_pair_line(line@),
{
    let n = line.len();
    if n < 2 {
        return Command::Unrecognized;
    }
    let first = *slice_index_get(line, 0);
    let second = *slice_index_get(line, 1);
    if second != DASH {
        return Command::Unrecognized;
    }
    if first == LETTER_C {
        let rest = slice_subrange(line, 2, n);
        if check_addr(rest) {
            return Command::Connect { address: slice_to_vec(rest) };
        }
        return Command::Unrecognized;
    }
    if first == LETTER_D {
        if n >= 3 {
            let rest = slice_subrange(line, 2, n);
            return Command::Disconnect { target: slice_to_vec(rest) };
        }
        return Command::Unrecognized;
    }
    if first == LETTER_P {
        if n >= 9 && *slice_index_get(line, n - 7) == DASH {
            let addr = slice_subrange(line, 2, n - 7);
            let code = slice_subrange(line, n - 6, n);
            if check_addr(addr) && check_code(code) {
                proof {
                    assert(2 < n - 7 < n && line@[n - 7] == DASH && is_addr(
                        line@.subrange(2, n - 7),
                    ) && is_code(line@.subrange(n - 6, n as int)));
                }
                return Command::Pair { address: slice_to_vec(addr), code: slice_to_vec(code) };
            }
        }
        proof {
            if is_pair_line(line@) {
                let k = choose|k: int|
                    2 < k < line@.len() && line@[k] == DASH && is_addr(line@.subrange(2, k))
                        && is_code(line@.subrange(k + 1, line@.len() as int));
                assert(line@.subrange(k + 1, line@.len() as int).len() == 6);
                assert(k == n - 7);
                assert(false);
            }
        }
        return Command::Unrecognized;
    }
    Command::Unrecognized
}

} // verus!
