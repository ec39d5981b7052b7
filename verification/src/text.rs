//! Character sequences: UTF-8 decoding, conversions between strings and
//! character vectors, and splitting text into lines.
//!
//! Entries are line-oriented plain text. All addressing inside a line is by
//! character index, never by byte offset, so text is handled as sequences of
//! `char`. The line-splitting rules match the ones used when an entry is
//! loaded: a line ends at a line feed, an immediately preceding carriage
//! return belongs to the line ending, and a final line ending is optional.

use vstd::prelude::*;
use vstd::string::StrSliceExecFns;
use vstd::utf8::valid_utf8;
use vstd::utf8::decode_utf8;

verus! {

/// Relies on `String::push`: appends one character at the end of the string.
#[verifier::external_body]
pub(crate) fn push_char(s: &mut String, c: char)
    ensures
        final(s)@ == old(s)@.push(c),
{
    s.push(c);
}

/// Relies on `String::from_utf8`: succeeds exactly on valid UTF-8 input and
/// returns the decoded character sequence.
#[verifier::external_body]
pub(crate) fn string_from_utf8(bytes: Vec<u8>) -> (r: Option<String>)
    ensures
        match r {
            Some(s) => valid_utf8(bytes@) && s@ == decode_utf8(bytes@),
            None => !valid_utf8(bytes@),
        },
{
    String::from_utf8(bytes).ok()
}

/// The characters of `s`, in order.
pub fn to_chars(s: &str) -> (r: Vec<char>)
    ensures
        r@ == s@,
{
    let n = s.unicode_len();
    let mut r: Vec<char> = Vec::new();
    let mut i: usize = 0;
    while i < n
        invariant
            n == s@.len(),
            0 <= i <= n,
            r@ =~= s@.subrange(0, i as int),
        decreases n - i,
    {
        r.push(s.get_char(i));
        i = i + 1;
    }
    proof {
        assert(s@.subrange(0, s@.len() as int) =~= s@);
    }
    r
}

/// The string holding exactly the characters of `v`, in order.
pub fn chars_to_string(v: &Vec<char>) -> (r: String)
    ensures
        r@ == v@,
{
    let mut r = String::new();
    let mut i: usize = 0;
    while i < v.len()
        invariant
            0 <= i <= v@.len(),
            r@ =~= v@.subrange(0, i as int),
        decreases v@.len() - i,
    {
        push_char(&mut r, v[i]);
        i = i + 1;
    }
    proof {
        assert(v@.subrange(0, v@.len() as int) =~= v@);
    }
    r
}

/// Index of the first line feed in `s`, or `s.len()` if there is none.
pub open spec fn first_nl(s: Seq<char>) -> int
    decreases s.len(),
{
    if s.len() == 0 {
        0
    } else if s[0] == '\n' {
        0
    } else {
        1 + first_nl(s.drop_first())
    }
}

/// `first_nl` is the unique position that no line feed precedes and that is
/// either the end of the text or a line feed itself.
pub proof fn lemma_first_nl_is(s: Seq<char>, m: int)
    requires
        0 <= m <= s.len(),
        forall|k: int| 0 <= k < m ==> s[k] != '\n',
        m < s.len() ==> s[m] == '\n',
    ensures
        first_nl(s) == m,
    decreases s.len(),
{
    if s.len() == 0 {
    } else if s[0] == '\n' {
        assert(m == 0);
    } else {
        assert(m >= 1);
        lemma_first_nl_is(s.drop_first(), m - 1);
    }
}

/// A line as stored in the buffer: the terminating line feed is gone, and so
/// is a carriage return that stood right before it.
pub open spec fn strip_cr(l: Seq<char>) -> Seq<char> {
    if l.len() > 0 && l.last() == '\r' {
        l.drop_last()
    } else {
        l
    }
}

/// `first_nl` stays within the text.
pub proof fn lemma_first_nl_bound(s: Seq<char>)
    ensures
        0 <= first_nl(s) <= s.len(),
    decreases s.len(),
{
    if s.len() > 0 && s[0] != '\n' {
        lemma_first_nl_bound(s.drop_first());
    }
}

/// The lines of `s`. A line ends at a line feed (stripping a carriage return
/// right before it); the final line needs no line ending, and text ending in
/// a line ending has no empty line after it.
pub open spec fn spec_lines(s: Seq<char>) -> Seq<Seq<char>>
    decreases s.len(),
    via spec_lines_decreases
{
    if s.len() == 0 {
        Seq::empty()
    } else {
        let i = first_nl(s);
        if i == s.len() {
            seq![s]
        } else {
            seq![strip_cr(s.take(i))] + spec_lines(s.skip(i + 1))
        }
    }
}

#[via_fn]
proof fn spec_lines_decreases(s: Seq<char>) {
    lemma_first_nl_bound(s);
}

/// The views of a sequence of character vectors.
pub open spec fn views(rows: Seq<Vec<char>>) -> Seq<Seq<char>> {
    rows.map_values(|v: Vec<char>| v@)
}

/// Index of the first occurrence of `sep` in `s`, or `s.len()` if none.
pub open spec fn first_occ(s: Seq<char>, sep: char) -> int
    decreases s.len(),
{
    if s.len() == 0 {
        0
    } else if s[0] == sep {
        0
    } else {
        1 + first_occ(s.drop_first(), sep)
    }
}

/// `first_occ` stays within the text.
pub proof fn lemma_first_occ_bound(s: Seq<char>, sep: char)
    ensures
        0 <= first_occ(s, sep) <= s.len(),
    decreases s.len(),
{
    if s.len() > 0 && s[0] != sep {
        lemma_first_occ_bound(s.drop_first(), sep);
    }
}

/// `first_occ` is the unique position that no separator precedes and that is
/// either the end of the text or a separator itself.
pub proof fn lemma_first_occ_is(s: Seq<char>, sep: char, m: int)
    requires
        0 <= m <= s.len(),
        forall|k: int| 0 <= k < m ==> s[k] != sep,
        m < s.len() ==> s[m] == sep,
    ensures
        first_occ(s, sep) == m,
    decreases s.len(),
{
    if s.len() == 0 {
    } else if s[0] == sep {
        assert(m == 0);
    } else {
        assert(m >= 1);
        lemma_first_occ_is(s.drop_first(), sep, m - 1);
    }
}

/// The pieces of `s` between occurrences of `sep`. Every piece is kept, even
/// an empty one, so the number of pieces is always one more than the number
/// of separators; the empty text is one empty piece.
pub open spec fn spec_split(s: Seq<char>, sep: char) -> Seq<Seq<char>>
    decreases s.len(),
    via spec_split_decreases
{
    let i = first_occ(s, sep);
    if i == s.len() {
        seq![s]
    } else {
        seq![s.take(i)] + spec_split(s.skip(i + 1), sep)
    }
}

#[via_fn]
proof fn spec_split_decreases(s: Seq<char>, sep: char) {
    lemma_first_occ_bound(s, sep);
}

/// Splits the text from position `p` on, as [`spec_split`] describes.
fn split_on_from(text: &Vec<char>, sep: char, p: usize) -> (r: Vec<Vec<char>>)
    requires
        p <= text@.len(),
    ensures
        views(r@) == spec_split(text@.skip(p as int), sep),
    decreases text@.len() - p,
{
    let ghost rest = text@.skip(p as int);
    let mut j: usize = p;
    while j < text.len() && text[j] != sep
        invariant
            p <= j <= text@.len(),
            forall|k: int| p <= k < j ==> text@[k] != sep,
        decreases text@.len() - j,
    {
        j = j + 1;
    }
    proof {
        assert(forall|k: int| 0 <= k < j - p ==> rest[k] == text@[k + p] && rest[k] != sep);
        lemma_first_occ_is(rest, sep, j - p);
    }
    let mut piece: Vec<char> = Vec::new();
    let mut k: usize = p;
    while k < j
        invariant
            p <= k <= j <= text@.len(),
            piece@ =~= text@.subrange(p as int, k as int),
        decreases j - k,
    {
        piece.push(text[k]);
        k = k + 1;
    }
    proof {
        assert(piece@ =~= rest.take(j - p));
    }
    if j < text.len() {
        let mut r = split_on_from(text, sep, j + 1);
        let ghost tail = views(r@);
        r.insert(0, piece);
        proof {
            assert(views(r@) =~= seq![rest.take(j - p)] + tail);
            assert(text@.skip(j + 1) =~= rest.skip(j - p + 1));
            assert(spec_split(rest, sep) =~= seq![rest.take(j - p)] + spec_split(
                rest.skip(j - p + 1),
                sep,
            ));
        }
        r
    } else {
        let mut r: Vec<Vec<char>> = Vec::new();
        r.push(piece);
        proof {
            assert(rest.take(j - p) =~= rest);
            assert(views(r@) =~= seq![rest]);
            assert(spec_split(rest, sep) =~= seq![rest]);
        }
        r
    }
}

/// Splits `text` at every occurrence of `sep`, as [`spec_split`] describes.
pub fn split_on(text: &Vec<char>, sep: char) -> (r: Vec<Vec<char>>)
    ensures
        views(r@) == spec_split(text@, sep),
{
    let r = split_on_from(text, sep, 0);
    proof {
        assert(text@.skip(0) =~= text@);
    }
    r
}

/// Splits `text` into its lines, as [`spec_lines`] describes.
pub fn split_lines(text: &Vec<char>) -> (r: Vec<Vec<char>>)
    ensures
        views(r@) == spec_lines(text@),
{
    let mut rows: Vec<Vec<char>> = Vec::new();
    let mut p: usize = 0;
    proof {
        assert(text@.skip(0) =~= text@);
        assert(views(rows@) =~= Seq::<Seq<char>>::empty());
    }
    while p < text.len()
        invariant
            0 <= p <= text@.len(),
            spec_lines(text@) =~= views(rows@) + spec_lines(text@.skip(p as int)),
        decreases text@.len() - p,
    {
        let ghost rest = text@.skip(p as int);
        let mut j: usize = p;
        while j < text.len() && text[j] != '\n'
            invariant
                p <= j <= text@.len(),
                forall|k: int| p <= k < j ==> text@[k] != '\n',
            decreases text@.len() - j,
        {
            j = j + 1;
        }
        proof {
            assert(forall|k: int| 0 <= k < j - p ==> rest[k] == text@[k + p] && rest[k] != '\n');
            lemma_first_nl_is(rest, j - p);
        }
        let mut line: Vec<char> = Vec::new();
        let mut k: usize = p;
        while k < j
            invariant
                p <= k <= j <= text@.len(),
                line@ =~= text@.subrange(p as int, k as int),
            decreases j - k,
        {
            line.push(text[k]);
            k = k + 1;
        }
        proof {
            assert(line@ =~= rest.take(j - p));
        }
        if j < text.len() {
            if line.len() > 0 && line[line.len() - 1] == '\r' {
                let _ = line.pop();
                proof {
                    assert(line@ =~= strip_cr(rest.take(j - p)));
                }
            }
            let ghost prev = views(rows@);
            let ghost linev = line@;
            rows.push(line);
            proof {
                assert(views(rows@) =~= prev.push(linev));
                assert(text@.skip(j + 1) =~= rest.skip(j - p + 1));
                assert(spec_lines(rest) =~= seq![strip_cr(rest.take(j - p))] + spec_lines(
                    rest.skip(j - p + 1),
                ));
                assert(views(rows@) + spec_lines(text@.skip(j + 1)) =~= prev + spec_lines(
                    rest,
                ));
            }
            p = j + 1;
        } else {
            let ghost prev = views(rows@);
            let ghost linev = line@;
            rows.push(line);
            proof {
                assert(views(rows@) =~= prev.push(linev));
                assert(rest.take(j - p) =~= rest);
                assert(spec_lines(rest) =~= seq![rest]);
                assert(text@.skip(j as int) =~= Seq::<char>::empty());
                assert(views(rows@) + spec_lines(text@.skip(j as int)) =~= prev + spec_lines(
                    rest,
                ));
            }
            p = j;
        }
    }
    proof {
        assert(text@.skip(p as int) =~= Seq::<char>::empty());
        assert(views(rows@) =~= views(rows@) + spec_lines(Seq::<char>::empty()));
        assert(views(rows@) =~= spec_lines(text@));
    }
    rows
}

} // verus!
