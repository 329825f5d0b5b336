//! Byte-sequence helpers shared by the message codec: searching for
//! delimiters, splitting on them, trimming, case folding, and decimal
//! conversion. Every executable helper is proved equal to a spec-level
//! definition over `Seq<u8>`.

use vstd::prelude::*;

verus! {

pub const CR: u8 = 13;
pub const LF: u8 = 10;
pub const SP: u8 = 32;
pub const HT: u8 = 9;
pub const COLON: u8 = 58;
pub const SEMI: u8 = 59;
pub const DASH: u8 = 45;

// ---------------------------------------------------------------------------
// Finding a single byte
// ---------------------------------------------------------------------------

/// Index of the first occurrence of `b` in `s`, if any.
pub open spec fn find_byte(s: Seq<u8>, b: u8) -> Option<int>
    decreases s.len(),
{
    if s.len() == 0 {
        None
    } else if s[0] == b {
        Some(0)
    } else {
        match find_byte(s.skip(1), b) {
            None => None,
            Some(i) => Some(i + 1),
        }
    }
}

/// `find_byte` returns the least index holding `b`, or `None` when `b`
/// does not occur.
pub proof fn lemma_find_byte(s: Seq<u8>, b: u8)
    ensures
        match find_byte(s, b) {
            Some(i) => 0 <= i < s.len() && s[i] == b && forall|j: int| 0 <= j < i ==> s[j] != b,
            None => forall|j: int| 0 <= j < s.len() ==> s[j] != b,
        },
    decreases s.len(),
{
    if s.len() == 0 {
    } else if s[0] == b {
    } else {
        lemma_find_byte(s.skip(1), b);
        assert(forall|j: int| 0 <= j < s.skip(1).len() ==> s.skip(1)[j] == s[j + 1]);
        match find_byte(s, b) {
            Some(i) => {
                assert forall|j: int| 0 <= j < i implies s[j] != b by {
                    if j > 0 {
                        assert(s.skip(1)[j - 1] != b);
                    }
                }
            }
            None => {
                assert forall|j: int| 0 <= j < s.len() implies s[j] != b by {
                    if j > 0 {
                        assert(s.skip(1)[j - 1] != b);
                    }
                }
            }
        }
    }
}

/// A least witness pins `find_byte` down.
pub proof fn lemma_find_byte_witness(s: Seq<u8>, b: u8, i: int)
    requires
        0 <= i < s.len(),
        s[i] == b,
        forall|j: int| 0 <= j < i ==> s[j] != b,
    ensures
        find_byte(s, b) == Some(i),
{
    lemma_find_byte(s, b);
    match find_byte(s, b) {
        Some(i2) => {
            if i2 < i {
                assert(s[i2] != b);
            } else if i < i2 {
                assert(s[i] != b);
            }
        }
        None => {
            assert(s[i] != b);
        }
    }
}

/// Absence of `b` everywhere means `find_byte` returns `None`.
pub proof fn lemma_find_byte_none(s: Seq<u8>, b: u8)
    requires
        forall|j: int| 0 <= j < s.len() ==> s[j] != b,
    ensures
        find_byte(s, b) is None,
{
    lemma_find_byte(s, b);
    if find_byte(s, b) is Some {
        let i = find_byte(s, b)->Some_0;
        assert(s[i] != b);
    }
}

/// Executable search for the first occurrence of `b`.
pub fn find_byte_exec(s: &[u8], b: u8) -> (r: Option<usize>)
    ensures
        match r {
            Some(i) => find_byte(s@, b) == Some(i as int),
            None => find_byte(s@, b) is None,
        },
{
    let mut i: usize = 0;
    while i < s.len()
        invariant
            0 <= i <= s@.len(),
            forall|j: int| 0 <= j < i ==> s@[j] != b,
        decreases s@.len() - i,
    {
        if s[i] == b {
            proof {
                lemma_find_byte_witness(s@, b, i as int);
            }
            return Some(i);
        }
        i += 1;
    }
    proof {
        lemma_find_byte_none(s@, b);
    }
    None
}

// ---------------------------------------------------------------------------
// Finding a CRLF line break
// ---------------------------------------------------------------------------

/// A CRLF line break starts at index `i` of `s`.
pub open spec fn crlf_at(s: Seq<u8>, i: int) -> bool {
    0 <= i && i + 2 <= s.len() && s[i] == CR && s[i + 1] == LF
}

/// Index of the first CRLF in `s`, if any.
pub open spec fn find_crlf(s: Seq<u8>) -> Option<int>
    decreases s.len(),
{
    if s.len() < 2 {
        None
    } else if s[0] == CR && s[1] == LF {
        Some(0)
    } else {
        match find_crlf(s.skip(1)) {
            None => None,
            Some(i) => Some(i + 1),
        }
    }
}

/// `find_crlf` returns the least index of a CRLF, or `None` when none occurs.
pub proof fn lemma_find_crlf(s: Seq<u8>)
    ensures
        match find_crlf(s) {
            Some(i) => crlf_at(s, i) && forall|j: int| 0 <= j < i ==> !crlf_at(s, j),
            None => forall|j: int| !crlf_at(s, j),
        },
    decreases s.len(),
{
    if s.len() < 2 {
    } else if s[0] == CR && s[1] == LF {
    } else {
        lemma_find_crlf(s.skip(1));
        assert(forall|j: int| 0 <= j < s.skip(1).len() ==> s.skip(1)[j] == s[j + 1]);
        assert(forall|j: int| crlf_at(s, j + 1) <==> crlf_at(s.skip(1), j));
        match find_crlf(s) {
            Some(i) => {
                assert forall|j: int| 0 <= j < i implies !crlf_at(s, j) by {
                    if j > 0 {
                        assert(!crlf_at(s.skip(1), j - 1));
                    }
                }
            }
            None => {
                assert forall|j: int| !crlf_at(s, j) by {
                    if j > 0 {
                        assert(!crlf_at(s.skip(1), j - 1));
                    }
                }
            }
        }
    }
}

/// A least witness pins `find_crlf` down.
pub proof fn lemma_find_crlf_witness(s: Seq<u8>, i: int)
    requires
        crlf_at(s, i),
        forall|j: int| 0 <= j < i ==> !crlf_at(s, j),
    ensures
        find_crlf(s) == Some(i),
{
    lemma_find_crlf(s);
    match find_crlf(s) {
        Some(i2) => {
            if i2 < i {
                assert(!crlf_at(s, i2));
            } else if i < i2 {
                assert(!crlf_at(s, i));
            }
        }
        None => {
            assert(!crlf_at(s, i));
        }
    }
}

/// Executable search for the first CRLF.
pub fn find_crlf_exec(s: &[u8]) -> (r: Option<usize>)
    ensures
        match r {
            Some(i) => find_crlf(s@) == Some(i as int),
            None => find_crlf(s@) is None,
        },
{
    let mut i: usize = 0;
    while i < s.len()
        invariant
            0 <= i <= s@.len(),
            forall|j: int| 0 <= j < i ==> !crlf_at(s@, j),
        decreases s@.len() - i,
    {
        if s[i] == CR && i + 1 < s.len() && s[i + 1] == LF {
            proof {
                lemma_find_crlf_witness(s@, i as int);
            }
            return Some(i);
        }
        i += 1;
    }
    proof {
        assert(forall|j: int| !crlf_at(s@, j));
        lemma_find_crlf(s@);
        if find_crlf(s@) is Some {
            assert(crlf_at(s@, find_crlf(s@)->Some_0));
        }
    }
    None
}

// ---------------------------------------------------------------------------
// Finding the blank-line message terminator CRLF CRLF
// ---------------------------------------------------------------------------

/// The four-byte message terminator CRLF CRLF starts at index `i` of `s`.
pub open spec fn term_at(s: Seq<u8>, i: int) -> bool {
    0 <= i && i + 4 <= s.len() && s[i] == CR && s[i + 1] == LF && s[i + 2] == CR && s[i + 3] == LF
}

/// Index of the first CRLF CRLF in `s`, if any.
pub open spec fn find_term(s: Seq<u8>) -> Option<int>
    decreases s.len(),
{
    if s.len() < 4 {
        None
    } else if s[0] == CR && s[1] == LF && s[2] == CR && s[3] == LF {
        Some(0)
    } else {
        match find_term(s.skip(1)) {
            None => None,
            Some(i) => Some(i + 1),
        }
    }
}

/// `find_term` returns the least index of a terminator, or `None`.
pub proof fn lemma_find_term(s: Seq<u8>)
    ensures
        match find_term(s) {
            Some(i) => term_at(s, i) && forall|j: int| 0 <= j < i ==> !term_at(s, j),
            None => forall|j: int| !term_at(s, j),
        },
    decreases s.len(),
{
    if s.len() < 4 {
    } else if s[0] == CR && s[1] == LF && s[2] == CR && s[3] == LF {
    } else {
        lemma_find_term(s.skip(1));
        assert(forall|j: int| 0 <= j < s.skip(1).len() ==> s.skip(1)[j] == s[j + 1]);
        assert(forall|j: int| term_at(s, j + 1) <==> term_at(s.skip(1), j));
        match find_term(s) {
            Some(i) => {
                assert forall|j: int| 0 <= j < i implies !term_at(s, j) by {
                    if j > 0 {
                        assert(!term_at(s.skip(1), j - 1));
                    }
                }
            }
            None => {
                assert forall|j: int| !term_at(s, j) by {
                    if j > 0 {
                        assert(!term_at(s.skip(1), j - 1));
                    }
                }
            }
        }
    }
}

/// A least witness pins `find_term` down.
pub proof fn lemma_find_term_witness(s: Seq<u8>, i: int)
    requires
        term_at(s, i),
        forall|j: int| 0 <= j < i ==> !term_at(s, j),
    ensures
        find_term(s) == Some(i),
{
    lemma_find_term(s);
    match find_term(s) {
        Some(i2) => {
            if i2 < i {
                assert(!term_at(s, i2));
            } else if i < i2 {
                assert(!term_at(s, i));
            }
        }
        None => {
            assert(!term_at(s, i));
        }
    }
}

/// Executable search for the first CRLF CRLF.
pub fn find_term_exec(s: &[u8]) -> (r: Option<usize>)
    ensures
        match r {
            Some(i) => find_term(s@) == Some(i as int),
            None => find_term(s@) is None,
        },
{
    let mut i: usize = 0;
    while i < s.len()
        invariant
            0 <= i <= s@.len(),
            forall|j: int| 0 <= j < i ==> !term_at(s@, j),
        decreases s@.len() - i,
    {
        if s[i] == CR && i + 1 < s.len() && s[i + 1] == LF && i + 2 < s.len() && s[i + 2] == CR
            && i + 3 < s.len() && s[i + 3] == LF {
            proof {
                lemma_find_term_witness(s@, i as int);
            }
            return Some(i);
        }
        i += 1;
    }
    proof {
        assert(forall|j: int| !term_at(s@, j));
        lemma_find_term(s@);
        if find_term(s@) is Some {
            assert(term_at(s@, find_term(s@)->Some_0));
        }
    }
    None
}

// ---------------------------------------------------------------------------
// Splitting on a delimiter
// ---------------------------------------------------------------------------

/// The views of a sequence of byte vectors.
pub open spec fn line_views(l: Seq<Vec<u8>>) -> Seq<Seq<u8>> {
    Seq::new(l.len(), |i: int| l[i]@)
}

/// `s` split on single-byte delimiter `b`; always at least one piece.
pub open spec fn split_byte(s: Seq<u8>, b: u8) -> Seq<Seq<u8>>
    decreases s.len(),
    via split_byte_dec
{
    match find_byte(s, b) {
        None => seq![s],
        Some(i) => seq![s.take(i)] + split_byte(s.skip(i + 1), b),
    }
}

#[via_fn]
proof fn split_byte_dec(s: Seq<u8>, b: u8) {
    lemma_find_byte(s, b);
}

/// `s` split on CRLF line breaks; always at least one piece.
pub open spec fn split_crlf(s: Seq<u8>) -> Seq<Seq<u8>>
    decreases s.len(),
    via split_crlf_dec
{
    match find_crlf(s) {
        None => seq![s],
        Some(i) => seq![s.take(i)] + split_crlf(s.skip(i + 2)),
    }
}

#[via_fn]
proof fn split_crlf_dec(s: Seq<u8>) {
    lemma_find_crlf(s);
}

/// Executable split on a single-byte delimiter.
pub fn split_byte_exec(s: &[u8], b: u8) -> (r: Vec<Vec<u8>>)
    ensures
        line_views(r@) == split_byte(s@, b),
{
    let mut acc: Vec<Vec<u8>> = Vec::new();
    let mut pos: usize = 0;
    proof {
        assert(s@.skip(0) =~= s@);
        assert(line_views(acc@) + split_byte(s@, b) =~= split_byte(s@, b));
    }
    loop
        invariant
            0 <= pos <= s@.len(),
            split_byte(s@, b) == line_views(acc@) + split_byte(s@.skip(pos as int), b),
        decreases s@.len() - pos,
    {
        let rest = vstd::slice::slice_subrange(s, pos, s.len());
        match find_byte_exec(rest, b) {
            Some(i) => {
                proof {
                    lemma_find_byte(rest@, b);
                }
                let piece = vstd::slice::slice_to_vec(vstd::slice::slice_subrange(rest, 0, i));
                proof {
                    let ghost old_views = line_views(acc@);
                    assert(line_views(acc@.push(piece)) =~= old_views.push(piece@));
                }
                acc.push(piece);
                proof {
                    let ghost suf = s@.skip(pos as int);
                    assert(piece@ =~= suf.take(i as int));
                    assert(suf.skip(i + 1) =~= s@.skip(pos + i + 1));
                    assert(split_byte(suf, b) == seq![suf.take(i as int)] + split_byte(
                        suf.skip(i + 1),
                        b,
                    ));
                    assert(line_views(acc@) + split_byte(s@.skip(pos + i + 1), b) =~= split_byte(
                        s@,
                        b,
                    ));
                }
                pos = pos + i + 1;
            }
            None => {
                let piece = vstd::slice::slice_to_vec(rest);
                proof {
                    let ghost old_views = line_views(acc@);
                    assert(line_views(acc@.push(piece)) =~= old_views.push(piece@));
                }
                acc.push(piece);
                proof {
                    let ghost suf = s@.skip(pos as int);
                    assert(split_byte(suf, b) == seq![suf]);
                    assert(line_views(acc@) =~= split_byte(s@, b));
                }
                return acc;
            }
        }
    }
}

/// Executable split on CRLF line breaks.
pub fn split_crlf_exec(s: &[u8]) -> (r: Vec<Vec<u8>>)
    ensures
        line_views(r@) == split_crlf(s@),
{
    let mut acc: Vec<Vec<u8>> = Vec::new();
    let mut pos: usize = 0;
    proof {
        assert(s@.skip(0) =~= s@);
        assert(line_views(acc@) + split_crlf(s@) =~= split_crlf(s@));
    }
    loop
        invariant
            0 <= pos <= s@.len(),
            split_crlf(s@) == line_views(acc@) + split_crlf(s@.skip(pos as int)),
        decreases s@.len() - pos,
    {
        let rest = vstd::slice::slice_subrange(s, pos, s.len());
        match find_crlf_exec(rest) {
            Some(i) => {
                proof {
                    lemma_find_crlf(rest@);
                }
                let piece = vstd::slice::slice_to_vec(vstd::slice::slice_subrange(rest, 0, i));
                proof {
                    let ghost old_views = line_views(acc@);
                    assert(line_views(acc@.push(piece)) =~= old_views.push(piece@));
                }
                acc.push(piece);
                proof {
                    let ghost suf = s@.skip(pos as int);
                    assert(piece@ =~= suf.take(i as int));
                    assert(suf.skip(i + 2) =~= s@.skip(pos + i + 2));
                    assert(split_crlf(suf) == seq![suf.take(i as int)] + split_crlf(
                        suf.skip(i + 2),
                    ));
                    assert(line_views(acc@) + split_crlf(s@.skip(pos + i + 2)) =~= split_crlf(s@));
                }
                pos = pos + i + 2;
            }
            None => {
                let piece = vstd::slice::slice_to_vec(rest);
                proof {
                    let ghost old_views = line_views(acc@);
                    assert(line_views(acc@.push(piece)) =~= old_views.push(piece@));
                }
                acc.push(piece);
                proof {
                    let ghost suf = s@.skip(pos as int);
                    assert(split_crlf(suf) == seq![suf]);
                    assert(line_views(acc@) =~= split_crlf(s@));
                }
                return acc;
            }
        }
    }
}

/// A split always yields at least one piece.
pub proof fn lemma_split_byte_min_len(s: Seq<u8>, b: u8)
    ensures
        split_byte(s, b).len() >= 1,
{
    match find_byte(s, b) {
        None => {}
        Some(i) => {}
    }
}

/// A split always yields at least one piece.
pub proof fn lemma_split_crlf_min_len(s: Seq<u8>)
    ensures
        split_crlf(s).len() >= 1,
{
    match find_crlf(s) {
        None => {}
        Some(i) => {}
    }
}

// ---------------------------------------------------------------------------
// Trimming and case folding
// ---------------------------------------------------------------------------

/// Linear white space inside a header line: space or horizontal tab.
pub open spec fn is_ws(c: u8) -> bool {
    c == SP || c == HT
}

/// `s` without leading white space.
pub open spec fn trim_left(s: Seq<u8>) -> Seq<u8>
    decreases s.len(),
{
    if s.len() > 0 && is_ws(s[0]) {
        trim_left(s.skip(1))
    } else {
        s
    }
}

/// `s` without trailing white space.
pub open spec fn trim_right(s: Seq<u8>) -> Seq<u8>
    decreases s.len(),
{
    if s.len() > 0 && is_ws(s.last()) {
        trim_right(s.drop_last())
    } else {
        s
    }
}

/// `s` without leading or trailing white space.
pub open spec fn trimmed(s: Seq<u8>) -> Seq<u8> {
    trim_right(trim_left(s))
}

/// Executable trim; returns the trimmed subslice.
pub fn trim_exec<'a>(s: &'a [u8]) -> (r: &'a [u8])
    ensures
        r@ == trimmed(s@),
{
    let mut lo: usize = 0;
    proof {
        assert(s@.skip(0) =~= s@);
    }
    while lo < s.len() && (s[lo] == SP || s[lo] == HT)
        invariant
            0 <= lo <= s@.len(),
            trim_left(s@) == trim_left(s@.skip(lo as int)),
        decreases s@.len() - lo,
    {
        proof {
            assert(s@.skip(lo as int).skip(1) =~= s@.skip(lo + 1));
        }
        lo += 1;
    }
    proof {
        assert(trim_left(s@) == s@.skip(lo as int));
    }
    let mut hi: usize = s.len();
    while hi > lo && (s[hi - 1] == SP || s[hi - 1] == HT)
        invariant
            lo <= hi <= s@.len(),
            trim_right(s@.subrange(lo as int, s@.len() as int)) == trim_right(
                s@.subrange(lo as int, hi as int),
            ),
        decreases hi,
    {
        proof {
            assert(s@.subrange(lo as int, hi as int).drop_last() =~= s@.subrange(
                lo as int,
                hi - 1,
            ));
        }
        hi -= 1;
    }
    proof {
        assert(s@.skip(lo as int) =~= s@.subrange(lo as int, s@.len() as int));
        assert(trim_right(s@.subrange(lo as int, hi as int)) == s@.subrange(lo as int, hi as int));
    }
    vstd::slice::slice_subrange(s, lo, hi)
}

/// ASCII lower-casing of one byte.
pub open spec fn lower_byte(c: u8) -> u8 {
    if 65 <= c <= 90 {
        (c + 32) as u8
    } else {
        c
    }
}

/// ASCII lower-casing of a byte sequence.
pub open spec fn to_lower(s: Seq<u8>) -> Seq<u8> {
    Seq::new(s.len(), |i: int| lower_byte(s[i]))
}

/// Executable ASCII lower-casing.
pub fn to_lower_exec(s: &[u8]) -> (r: Vec<u8>)
    ensures
        r@ == to_lower(s@),
{
    let mut out: Vec<u8> = Vec::new();
    let mut i: usize = 0;
    while i < s.len()
        invariant
            0 <= i <= s@.len(),
            out@.len() == i,
            forall|j: int| 0 <= j < i ==> out@[j] == lower_byte(s@[j]),
        decreases s@.len() - i,
    {
        let c = s[i];
        if c >= 65 && c <= 90 {
            out.push(c + 32);
        } else {
            out.push(c);
        }
        i += 1;
    }
    proof {
        assert(out@ =~= to_lower(s@));
    }
    out
}

// ---------------------------------------------------------------------------
// Decimal numbers
// ---------------------------------------------------------------------------

/// ASCII decimal digit.
pub open spec fn is_digit(c: u8) -> bool {
    48 <= c <= 57
}

/// Every byte of `s` is a decimal digit.
pub open spec fn all_digits(s: Seq<u8>) -> bool {
    forall|i: int| 0 <= i < s.len() ==> is_digit(s[i])
}

/// The value of `s` read as a decimal numeral (left to right).
pub open spec fn dec_val(s: Seq<u8>) -> int
    decreases s.len(),
{
    if s.len() == 0 {
        0
    } else {
        dec_val(s.drop_last()) * 10 + (s.last() - 48)
    }
}

/// A numeral of digits has a non-negative value.
pub proof fn lemma_dec_val_nonneg(s: Seq<u8>)
    requires
        all_digits(s),
    ensures
        dec_val(s) >= 0,
    decreases s.len(),
{
    if s.len() > 0 {
        lemma_dec_val_nonneg(s.drop_last());
    }
}

/// Extending a numeral with more digits can only increase its value.
pub proof fn lemma_dec_val_prefix(s: Seq<u8>, n: int)
    requires
        all_digits(s),
        0 <= n <= s.len(),
    ensures
        dec_val(s.take(n)) <= dec_val(s),
    decreases s.len(),
{
    if n < s.len() {
        lemma_dec_val_nonneg(s.drop_last());
        assert(s.drop_last().take(n) =~= s.take(n));
        lemma_dec_val_prefix(s.drop_last(), n);
    } else {
        assert(s.take(n) =~= s);
    }
}

/// Executable decimal parse: the value of `s`, when `s` is a non-empty
/// numeral whose value fits in a `u64`.
pub fn parse_dec(s: &[u8]) -> (r: Option<u64>)
    ensures
        match r {
            Some(v) => s@.len() > 0 && all_digits(s@) && v as int == dec_val(s@),
            None => !(s@.len() > 0 && all_digits(s@) && dec_val(s@) <= u64::MAX),
        },
{
    if s.len() == 0 {
        return None;
    }
    let mut acc: u64 = 0;
    let mut i: usize = 0;
    while i < s.len()
        invariant
            0 <= i <= s@.len(),
            s@.len() > 0,
            all_digits(s@.take(i as int)),
            acc as int == dec_val(s@.take(i as int)),
        decreases s@.len() - i,
    {
        let c = s[i];
        if !(c >= 48 && c <= 57) {
            return None;
        }
        let d = (c - 48) as u64;
        if acc > (u64::MAX - d) / 10 {
            proof {
                assert(acc * 10 + d > u64::MAX) by (nonlinear_arith)
                    requires
                        acc > (u64::MAX - d) / 10,
                        d <= 9,
                ;
                assert(s@.take(i + 1).drop_last() =~= s@.take(i as int));
                assert(s@.take(i + 1).last() == s@[i as int]);
                assert(dec_val(s@.take(i + 1)) > u64::MAX);
                if all_digits(s@) {
                    lemma_dec_val_prefix(s@, i + 1);
                }
            }
            return None;
        }
        proof {
            assert(acc * 10 + d <= u64::MAX) by (nonlinear_arith)
                requires
                    acc <= (u64::MAX - d) / 10,
                    d <= 9,
            ;
            assert(s@.take(i + 1).drop_last() =~= s@.take(i as int));
            assert(s@.take(i + 1).last() == s@[i as int]);
        }
        acc = acc * 10 + d;
        i += 1;
    }
    proof {
        assert(s@.take(i as int) =~= s@);
    }
    Some(acc)
}

/// The decimal numeral of a non-negative number, most significant digit
/// first.
pub open spec fn dec_of(n: int) -> Seq<u8>
    decreases n,
{
    if n < 0 {
        Seq::empty()
    } else if n < 10 {
        seq![(48 + n) as u8]
    } else {
        dec_of(n / 10) + seq![(48 + n % 10) as u8]
    }
}

/// Executable decimal rendering.
pub fn render_dec(n: u64) -> (r: Vec<u8>)
    ensures
        r@ == dec_of(n as int),
    decreases n,
{
    if n < 10 {
        let mut v: Vec<u8> = Vec::new();
        v.push(48 + n as u8);
        proof {
            assert(v@ =~= dec_of(n as int));
        }
        v
    } else {
        let mut v = render_dec(n / 10);
        v.push(48 + (n % 10) as u8);
        proof {
            assert(v@ =~= dec_of(n as int));
        }
        v
    }
}

// ---------------------------------------------------------------------------
// Comparison and concatenation
// ---------------------------------------------------------------------------

/// Executable byte-sequence equality.
pub fn bytes_eq(a: &[u8], b: &[u8]) -> (r: bool)
    ensures
        r <==> a@ == b@,
{
    if a.len() != b.len() {
        return false;
    }
    let mut i: usize = 0;
    while i < a.len()
        invariant
            0 <= i <= a@.len(),
            a@.len() == b@.len(),
            forall|j: int| 0 <= j < i ==> a@[j] == b@[j],
        decreases a@.len() - i,
    {
        if a[i] != b[i] {
            return false;
        }
        i += 1;
    }
    proof {
        assert(a@ =~= b@);
    }
    true
}

/// `p` is a prefix of `s`.
pub open spec fn starts_with(s: Seq<u8>, p: Seq<u8>) -> bool {
    s.len() >= p.len() && s.take(p.len() as int) == p
}

/// Executable prefix test.
pub fn starts_with_exec(s: &[u8], p: &[u8]) -> (r: bool)
    ensures
        r == starts_with(s@, p@),
{
    if s.len() < p.len() {
        return false;
    }
    bytes_eq(vstd::slice::slice_subrange(s, 0, p.len()), p)
}

/// Appends `src` to `dst`.
pub fn push_bytes(dst: &mut Vec<u8>, src: &[u8])
    ensures
        final(dst)@ == old(dst)@ + src@,
{
    let ghost dst0 = dst@;
    let mut i: usize = 0;
    while i < src.len()
        invariant
            0 <= i <= src@.len(),
            dst@ == dst0 + src@.take(i as int),
        decreases src@.len() - i,
    {
        dst.push(src[i]);
        proof {
            assert(dst@ =~= dst0 + src@.take(i + 1));
        }
        i += 1;
    }
    proof {
        assert(dst0 + src@.take(src@.len() as int) =~= dst0 + src@);
    }
}

} // verus!
