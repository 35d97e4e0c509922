//! Texts as bytes: searching, splitting, joining and comparing them.
use vstd::prelude::*;
use vstd::slice::slice_subrange;
use vstd::utf8::is_ascii_chars;

verus! {

/// The bytes of an ASCII string.
pub open spec fn ascii(s: Seq<char>) -> Seq<u8> {
    Seq::new(s.len(), |i: int| s[i] as u8)
}

/// The position of the first `sep` in `s`, or the length of `s` if there is none.
pub open spec fn find(s: Seq<u8>, sep: u8) -> int
    decreases s.len(),
{
    if s.len() == 0 || s[0] == sep {
        0
    } else {
        1 + find(s.skip(1), sep)
    }
}

/// The pieces of `s` between separators: one more than `s` has separators.
pub open spec fn split(s: Seq<u8>, sep: u8) -> Seq<Seq<u8>>
    decreases s.len(),
    via split_decreases
{
    let i = find(s, sep);
    if i >= s.len() {
        seq![s]
    } else {
        seq![s.take(i)] + split(s.skip(i + 1), sep)
    }
}

#[via_fn]
proof fn split_decreases(s: Seq<u8>, sep: u8) {
    lemma_find(s, sep);
}

/// `find` gives the first position at which the separator stands.
pub proof fn lemma_find(s: Seq<u8>, sep: u8)
    ensures
        0 <= find(s, sep) <= s.len(),
        find(s, sep) < s.len() ==> s[find(s, sep)] == sep,
        forall|j: int| 0 <= j < find(s, sep) ==> s[j] != sep,
    decreases s.len(),
{
    if s.len() > 0 && s[0] != sep {
        lemma_find(s.skip(1), sep);
        assert forall|j: int| 0 <= j < find(s, sep) implies s[j] != sep by {
            if j > 0 {
                assert(s.skip(1)[j - 1] == s[j]);
            }
        }
    }
}

/// A position with the separator, or the end, and no separator before it is what
/// `find` gives.
pub proof fn lemma_find_is(s: Seq<u8>, sep: u8, i: int)
    requires
        0 <= i <= s.len(),
        i < s.len() ==> s[i] == sep,
        forall|j: int| 0 <= j < i ==> s[j] != sep,
    ensures
        find(s, sep) == i,
{
    lemma_find(s, sep);
    let f = find(s, sep);
    if f < i {
        assert(s[f] != sep);
    } else if i < f {
        assert(s[i] != sep);
    }
}

/// The pieces with one `sep` between each two.
pub open spec fn join(pieces: Seq<Seq<u8>>, sep: u8) -> Seq<u8>
    decreases pieces.len(),
{
    if pieces.len() == 0 {
        Seq::empty()
    } else if pieces.len() == 1 {
        pieces[0]
    } else {
        pieces[0].push(sep) + join(pieces.skip(1), sep)
    }
}

/// A text that holds no separator is its only piece.
pub proof fn lemma_split_alone(s: Seq<u8>, sep: u8)
    requires
        !s.contains(sep),
    ensures
        find(s, sep) == s.len(),
        split(s, sep) == seq![s],
{
    lemma_find(s, sep);
}

/// What stands before the first separator is the first piece.
pub proof fn lemma_split_first(head: Seq<u8>, sep: u8, tail: Seq<u8>)
    requires
        !head.contains(sep),
    ensures
        find(head.push(sep) + tail, sep) == head.len(),
        split(head.push(sep) + tail, sep) == seq![head] + split(tail, sep),
{
    let s = head.push(sep) + tail;
    let i = head.len() as int;
    assert forall|j: int| 0 <= j < i implies s[j] != sep by {
        assert(s[j] == head[j]);
    }
    lemma_find_is(s, sep, i);
    assert(s.take(i) =~= head);
    assert(s.skip(i + 1) =~= tail);
}

/// Joining one more piece puts it behind a separator.
pub proof fn lemma_join_push(pieces: Seq<Seq<u8>>, sep: u8, piece: Seq<u8>)
    ensures
        join(pieces.push(piece), sep) == if pieces.len() == 0 {
            piece
        } else {
            join(pieces, sep).push(sep) + piece
        },
    decreases pieces.len(),
{
    let all = pieces.push(piece);
    if pieces.len() == 1 {
        assert(all.skip(1) =~= seq![piece]);
        assert(join(all.skip(1), sep) == piece);
    } else if pieces.len() > 1 {
        lemma_join_push(pieces.skip(1), sep, piece);
        assert(all.skip(1) =~= pieces.skip(1).push(piece));
        assert(join(all, sep) == pieces[0].push(sep) + (join(pieces.skip(1), sep).push(sep)
            + piece));
        assert(join(all, sep) =~= (pieces[0].push(sep) + join(pieces.skip(1), sep)).push(sep)
            + piece);
    }
}

/// Splitting gives back what was joined, where no piece holds the separator.
pub proof fn split_undoes_join(pieces: Seq<Seq<u8>>, sep: u8)
    requires
        pieces.len() > 0,
        forall|i: int| 0 <= i < pieces.len() ==> !(#[trigger] pieces[i]).contains(sep),
    ensures
        split(join(pieces, sep), sep) == pieces,
    decreases pieces.len(),
{
    if pieces.len() == 1 {
        lemma_split_alone(pieces[0], sep);
        assert(pieces =~= seq![pieces[0]]);
    } else {
        let rest = pieces.skip(1);
        assert forall|i: int| 0 <= i < rest.len() implies !(#[trigger] rest[i]).contains(sep) by {
            assert(rest[i] == pieces[i + 1]);
        }
        split_undoes_join(rest, sep);
        lemma_split_first(pieces[0], sep, join(rest, sep));
        assert(pieces =~= seq![pieces[0]] + rest);
    }
}

/// Joining gives back what was split.
pub proof fn join_undoes_split(s: Seq<u8>, sep: u8)
    ensures
        join(split(s, sep), sep) == s,
        split(s, sep).len() > 0,
    decreases s.len(),
{
    lemma_find(s, sep);
    let i = find(s, sep);
    if i < s.len() {
        let rest = s.skip(i + 1);
        join_undoes_split(rest, sep);
        let pieces = split(s, sep);
        assert(pieces.skip(1) =~= split(rest, sep));
        assert(join(pieces, sep) == s.take(i).push(sep) + rest);
        assert(s.take(i).push(sep) + rest =~= s);
    }
}

/// The position of the first `sep` in `s`, or the length of `s`.
pub fn find_byte(s: &[u8], sep: u8) -> (i: usize)
    ensures
        i == find(s@, sep),
        i <= s@.len(),
        i < s@.len() ==> s@[i as int] == sep,
        forall|j: int| 0 <= j < i ==> s@[j] != sep,
{
    let mut i: usize = 0;
    while i < s.len() && s[i] != sep
        invariant
            i <= s@.len(),
            forall|j: int| 0 <= j < i ==> s@[j] != sep,
        decreases s@.len() - i,
    {
        i += 1;
    }
    proof {
        lemma_find_is(s@, sep, i as int);
    }
    i
}

/// Splits at the first `sep` into what stands before it and what stands after.
pub fn split_once(s: &[u8], sep: u8) -> (halves: Option<(&[u8], &[u8])>)
    ensures
        halves is Some <==> s@.contains(sep),
        halves matches Some((head, tail)) ==> {
            &&& head@ == s@.take(find(s@, sep))
            &&& tail@ == s@.skip(find(s@, sep) + 1)
            &&& s@ == head@.push(sep) + tail@
            &&& !head@.contains(sep)
        },
{
    let i = find_byte(s, sep);
    proof {
        lemma_find(s@, sep);
    }
    if i == s.len() {
        None
    } else {
        let head = slice_subrange(s, 0, i);
        let tail = slice_subrange(s, i + 1, s.len());
        assert(s@ =~= head@.push(sep) + tail@);
        Some((head, tail))
    }
}

/// An ASCII capital becomes its small letter; every other byte stays.
pub open spec fn lower_byte(b: u8) -> u8 {
    if 65 <= b <= 90 {
        (b + 32) as u8
    } else {
        b
    }
}

pub open spec fn lower(s: Seq<u8>) -> Seq<u8> {
    s.map_values(|b: u8| lower_byte(b))
}

/// Two texts that differ at most in the case of ASCII letters.
pub open spec fn same_ignoring_case(a: Seq<u8>, b: Seq<u8>) -> bool {
    lower(a) == lower(b)
}

/// One byte, or a capital letter and its small one.
pub open spec fn same_letter(a: u8, b: u8) -> bool {
    ||| a == b
    ||| 'A' as u8 <= a <= 'Z' as u8 && b == a + 32
    ||| 'A' as u8 <= b <= 'Z' as u8 && a == b + 32
}

/// Texts are the same but for case exactly where they are equally long and at each place
/// have one byte, or a capital letter and its small one.
pub proof fn case_is_that_of_letters(a: Seq<u8>, b: Seq<u8>)
    ensures
        same_ignoring_case(a, b) <==> a.len() == b.len() && forall|i: int|
            0 <= i < a.len() ==> same_letter(#[trigger] a[i], b[i]),
{
    assert(lower(a).len() == a.len() && lower(b).len() == b.len());
    if same_ignoring_case(a, b) {
        assert forall|i: int| 0 <= i < a.len() implies same_letter(#[trigger] a[i], b[i]) by {
            assert(lower(a)[i] == lower(b)[i]);
        }
    } else if a.len() == b.len() {
        let i = choose|i: int| 0 <= i < a.len() && lower(a)[i] != lower(b)[i];
        assert(exists|i: int| 0 <= i < a.len() && lower(a)[i] != lower(b)[i]) by {
            if forall|i: int| 0 <= i < a.len() ==> lower(a)[i] == lower(b)[i] {
                assert(lower(a) =~= lower(b));
            }
        }
        assert(!same_letter(a[i], b[i]));
    }
}

fn to_lower(b: u8) -> (l: u8)
    ensures
        l == lower_byte(b),
{
    if 65 <= b && b <= 90 {
        b + 32
    } else {
        b
    }
}

/// Whether the texts differ at most in the case of ASCII letters.
pub fn eq_ignore_ascii_case(a: &[u8], b: &[u8]) -> (same: bool)
    ensures
        same == same_ignoring_case(a@, b@),
        same <==> a@.len() == b@.len() && forall|i: int|
            0 <= i < a@.len() ==> same_letter(#[trigger] a@[i], b@[i]),
{
    proof {
        case_is_that_of_letters(a@, b@);
    }
    if a.len() != b.len() {
        assert(lower(a@).len() != lower(b@).len());
        return false;
    }
    let mut i: usize = 0;
    while i < a.len()
        invariant
            i <= a@.len(),
            a@.len() == b@.len(),
            forall|j: int| 0 <= j < i ==> lower_byte(a@[j]) == lower_byte(b@[j]),
        decreases a@.len() - i,
    {
        if to_lower(a[i]) != to_lower(b[i]) {
            assert(lower(a@)[i as int] != lower(b@)[i as int]);
            return false;
        }
        i += 1;
    }
    assert(lower(a@) =~= lower(b@));
    true
}

/// Writes an ASCII text behind what `out` holds.
pub fn push_ascii(out: &mut Vec<u8>, s: &str)
    requires
        is_ascii_chars(s@),
    ensures
        final(out)@ == old(out)@ + ascii(s@),
{
    push_bytes(out, ascii_bytes(s));
}

/// Writes `s` behind what `out` holds.
pub fn push_bytes(out: &mut Vec<u8>, s: &[u8])
    ensures
        final(out)@ == old(out)@ + s@,
{
    let mut i: usize = 0;
    while i < s.len()
        invariant
            i <= s@.len(),
            out@ == old(out)@ + s@.take(i as int),
        decreases s@.len() - i,
    {
        out.push(s[i]);
        i += 1;
        assert(s@.take(i as int) =~= s@.take(i - 1).push(s@[i - 1]));
    }
    assert(s@.take(i as int) =~= s@);
}

/// The bytes of an ASCII string.
pub fn ascii_bytes(s: &str) -> (b: &[u8])
    requires
        is_ascii_chars(s@),
    ensures
        b@ == ascii(s@),
{
    assert(s.is_ascii());
    s.as_bytes()
}

/// The bytes of an ASCII text are the numbers of its characters.
pub proof fn ascii_is_byte_by_byte(s: Seq<char>, i: int)
    requires
        0 <= i < s.len(),
    ensures
        ascii(s).len() == s.len(),
        ascii(s)[i] == s[i] as u8,
{
}

/// No piece holds the separator, and a text has one piece more than separators.
pub proof fn pieces_hold_no_separator(s: Seq<u8>, sep: u8)
    ensures
        forall|i: int|
            0 <= i < split(s, sep).len() ==> !(#[trigger] split(s, sep)[i]).contains(sep),
        split(s, sep).len() == s.filter(|b: u8| b == sep).len() + 1,
    decreases s.len(),
{
    reveal(Seq::filter);
    lemma_find(s, sep);
    let is_sep = |b: u8| b == sep;
    let i = find(s, sep);
    if i < s.len() {
        let (head, rest) = (s.take(i), s.skip(i + 1));
        pieces_hold_no_separator(rest, sep);
        lemma_none(head, sep);
        assert(s =~= head.push(sep) + rest);
        Seq::filter_distributes_over_add(head.push(sep), rest, is_sep);
        assert(head.push(sep).drop_last() =~= head);
        assert(head.push(sep).filter(is_sep) =~= seq![sep]);
        assert forall|k: int| 0 <= k < split(s, sep).len() implies !(#[trigger] split(
            s,
            sep,
        )[k]).contains(sep) by {
            if k > 0 {
                assert(split(s, sep)[k] == split(rest, sep)[k - 1]);
            }
        }
    } else {
        lemma_none(s, sep);
    }
}

proof fn lemma_none(s: Seq<u8>, sep: u8)
    requires
        forall|j: int| 0 <= j < s.len() ==> s[j] != sep,
    ensures
        s.filter(|b: u8| b == sep).len() == 0,
    decreases s.len(),
{
    reveal(Seq::filter);
    if s.len() > 0 {
        lemma_none(s.drop_last(), sep);
    }
}

} // verus!
