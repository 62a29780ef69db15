//! Text as sequences of characters.
//!
//! Everything the library decides about a piece of text (where a separator
//! stands, which lines a buffer has, what a trimmed value is) is stated here
//! over `Seq<char>` and computed over `Vec<char>`.

use vstd::prelude::*;

verus! {

/// The views of a list of character vectors, one per entry.
pub open spec fn texts(v: Seq<Vec<char>>) -> Seq<Seq<char>> {
    Seq::new(v.len(), |i: int| v[i]@)
}

/// Pushing one more vector pushes its view.
pub proof fn lemma_texts_push(v: Seq<Vec<char>>, x: Vec<char>)
    ensures
        texts(v.push(x)) == texts(v).push(x@),
{
    assert(texts(v.push(x)) =~= texts(v).push(x@));
}

/// The views of a list of pairs of character vectors.
pub open spec fn pair_texts(v: Seq<(Vec<char>, Vec<char>)>) -> Seq<(Seq<char>, Seq<char>)> {
    Seq::new(v.len(), |i: int| (v[i].0@, v[i].1@))
}

/// The characters of a string, in order.
pub fn str_chars(s: &str) -> (res: Vec<char>)
    ensures
        res@ == s@,
{
    let mut out: Vec<char> = Vec::new();
    for c in it: s.chars()
        invariant
            out@ == it.seq().take(it.index() as int),
            it.seq() == s@,
    {
        out.push(c);
    }
    out
}

/// Appends a character to a string with `String::push`, which puts the
/// character at the end and leaves the rest as it is.
#[verifier::external_body]
fn push_char(text: &mut String, c: char)
    ensures
        final(text)@ == old(text)@.push(c),
{
    text.push(c);
}

/// The string that holds the given characters, in order.
pub fn chars_to_string(chars: &Vec<char>) -> (res: String)
    ensures
        res@ == chars@,
{
    let mut out = String::new();
    let mut i: usize = 0;
    assert(out@ =~= chars@.take(0));
    while i < chars.len()
        invariant
            i <= chars.len(),
            out@ == chars@.take(i as int),
        decreases chars.len() - i,
    {
        push_char(&mut out, chars[i]);
        i += 1;
        assert(out@ =~= chars@.take(i as int));
    }
    assert(chars@.take(chars.len() as int) =~= chars@);
    out
}

/// A copy of a character vector.
pub fn copy_chars(s: &Vec<char>) -> (res: Vec<char>)
    ensures
        res@ == s@,
{
    slice_chars(s, 0, s.len())
}

/// The characters of `s` from `from` up to, not including, `to`.
pub fn slice_chars(s: &Vec<char>, from: usize, to: usize) -> (res: Vec<char>)
    requires
        from <= to <= s.len(),
    ensures
        res@ == s@.subrange(from as int, to as int),
{
    let mut out: Vec<char> = Vec::new();
    let mut i: usize = from;
    while i < to
        invariant
            from <= i <= to <= s.len(),
            out@ == s@.subrange(from as int, i as int),
        decreases to - i,
    {
        out.push(s[i]);
        i += 1;
        assert(out@ =~= s@.subrange(from as int, i as int));
    }
    out
}

/// Appends the characters of `tail` to `out`.
pub fn append_chars(out: &mut Vec<char>, tail: &Vec<char>)
    ensures
        final(out)@ == old(out)@ + tail@,
{
    let mut i: usize = 0;
    while i < tail.len()
        invariant
            i <= tail.len(),
            out@ == old(out)@ + tail@.subrange(0, i as int),
        decreases tail.len() - i,
    {
        out.push(tail[i]);
        i += 1;
        assert(out@ =~= old(out)@ + tail@.subrange(0, i as int));
    }
    assert(tail@.subrange(0, tail.len() as int) =~= tail@);
}

/// Appends the characters of a string to `out`.
pub fn push_str(out: &mut Vec<char>, tail: &str)
    ensures
        final(out)@ == old(out)@ + tail@,
{
    let chars = str_chars(tail);
    append_chars(out, &chars);
}

/// Whether two character vectors hold the same text.
pub fn chars_eq(a: &Vec<char>, b: &Vec<char>) -> (res: bool)
    ensures
        res == (a@ == b@),
{
    if a.len() != b.len() {
        return false;
    }
    let mut i: usize = 0;
    while i < a.len()
        invariant
            i <= a.len(),
            a.len() == b.len(),
            forall|k: int| 0 <= k < i ==> a@[k] == b@[k],
        decreases a.len() - i,
    {
        if a[i] != b[i] {
            return false;
        }
        i += 1;
    }
    assert(a@ =~= b@);
    true
}

/// The first position at or after `from` where `c` stands in `s`, or the
/// length of `s` if there is none.
pub open spec fn find_from(s: Seq<char>, c: char, from: int) -> int
    decreases s.len() - from,
{
    if from >= s.len() {
        s.len() as int
    } else if s[from] == c {
        from
    } else {
        find_from(s, c, from + 1)
    }
}

/// What `find_from` returns: a position in range, `c` there if it is inside
/// the text, and no `c` before it.
pub proof fn lemma_find_from(s: Seq<char>, c: char, from: int)
    requires
        0 <= from <= s.len(),
    ensures
        from <= find_from(s, c, from) <= s.len(),
        find_from(s, c, from) < s.len() ==> s[find_from(s, c, from)] == c,
        forall|k: int| from <= k < find_from(s, c, from) ==> s[k] != c,
    decreases s.len() - from,
{
    if from < s.len() && s[from] != c {
        lemma_find_from(s, c, from + 1);
    }
}

/// Whether `c` occurs in `s`.
pub open spec fn has_char(s: Seq<char>, c: char) -> bool {
    find_from(s, c, 0) < s.len()
}

/// `has_char` means that some position holds the character.
pub proof fn lemma_has_char(s: Seq<char>, c: char)
    ensures
        has_char(s, c) <==> exists|k: int| 0 <= k < s.len() && s[k] == c,
{
    lemma_find_from(s, c, 0);
    if has_char(s, c) {
        assert(s[find_from(s, c, 0)] == c);
    }
}

/// The first position at or after `from` where `c` stands.
pub fn find_char(s: &Vec<char>, c: char, from: usize) -> (res: usize)
    requires
        from <= s.len(),
    ensures
        res == find_from(s@, c, from as int),
        from <= res <= s.len(),
{
    let mut i: usize = from;
    while i < s.len()
        invariant
            from <= i <= s.len(),
            find_from(s@, c, from as int) == find_from(s@, c, i as int),
        decreases s.len() - i,
    {
        if s[i] == c {
            return i;
        }
        i += 1;
    }
    i
}

/// Whether `c` occurs in `s`.
pub fn contains_char(s: &Vec<char>, c: char) -> (res: bool)
    ensures
        res == has_char(s@, c),
{
    find_char(s, c, 0) < s.len()
}

/// Whether `s` begins with `p`.
pub open spec fn has_prefix(s: Seq<char>, p: Seq<char>) -> bool {
    p.len() <= s.len() && s.subrange(0, p.len() as int) == p
}

/// Whether `p` stands in `s` at position `at`.
pub open spec fn occurs_at(s: Seq<char>, p: Seq<char>, at: int) -> bool {
    0 <= at && at + p.len() <= s.len() && s.subrange(at, at + p.len()) == p
}

/// Whether `p` stands somewhere in `s`.
pub open spec fn has_infix(s: Seq<char>, p: Seq<char>) -> bool {
    exists|at: int| occurs_at(s, p, at)
}

/// Whether `p` stands in `s` at position `at`.
pub fn matches_at(s: &Vec<char>, p: &Vec<char>, at: usize) -> (res: bool)
    ensures
        res == occurs_at(s@, p@, at as int),
{
    if at > s.len() || p.len() > s.len() - at {
        return false;
    }
    let mut i: usize = 0;
    while i < p.len()
        invariant
            i <= p.len(),
            at + p.len() <= s.len(),
            forall|k: int| 0 <= k < i ==> s@[at + k] == p@[k],
        decreases p.len() - i,
    {
        if s[at + i] != p[i] {
            assert(s@.subrange(at as int, at + p.len())[i as int] != p@[i as int]);
            return false;
        }
        i += 1;
    }
    assert(s@.subrange(at as int, at + p.len()) =~= p@);
    true
}

/// Whether `s` begins with `p`.
pub fn starts_with(s: &Vec<char>, p: &Vec<char>) -> (res: bool)
    ensures
        res == has_prefix(s@, p@),
{
    matches_at(s, p, 0)
}

/// Whether `p` stands somewhere in `s`.
pub fn contains(s: &Vec<char>, p: &Vec<char>) -> (res: bool)
    ensures
        res == has_infix(s@, p@),
{
    if p.len() > s.len() {
        return false;
    }
    let last: usize = s.len() - p.len();
    let mut i: usize = 0;
    loop
        invariant
            i <= last,
            last == s.len() - p.len(),
            forall|k: int| 0 <= k < i ==> !occurs_at(s@, p@, k),
        decreases last - i,
    {
        if matches_at(s, p, i) {
            return true;
        }
        if i == last {
            return false;
        }
        i += 1;
    }
}

/// The first position at or after `from` where `p` stands in `s`, or the
/// length of `s` if it stands nowhere from there on.
pub open spec fn find_text_from(s: Seq<char>, p: Seq<char>, from: int) -> int
    decreases s.len() - from,
{
    if from < 0 || from >= s.len() || from + p.len() > s.len() {
        s.len() as int
    } else if occurs_at(s, p, from) {
        from
    } else {
        find_text_from(s, p, from + 1)
    }
}

/// What stands in `s` before the first occurrence of `p`: all of `s` if `p`
/// does not occur.
pub open spec fn before_text(s: Seq<char>, p: Seq<char>) -> Seq<char> {
    s.subrange(0, find_text_from(s, p, 0))
}

/// The first position at or after `from` where `p` stands in `s`, or the
/// length of `s` if it stands nowhere from there on.
pub fn find_text(s: &Vec<char>, p: &Vec<char>, from: usize) -> (res: usize)
    requires
        from <= s.len(),
    ensures
        res == find_text_from(s@, p@, from as int),
        from <= res <= s.len(),
{
    if p.len() > s.len() {
        return s.len();
    }
    let last: usize = s.len() - p.len();
    let mut i: usize = from;
    while i < s.len() && i <= last
        invariant
            from <= i <= s.len(),
            last == s.len() - p.len(),
            find_text_from(s@, p@, from as int) == find_text_from(s@, p@, i as int),
        decreases s.len() - i,
    {
        if matches_at(s, p, i) {
            return i;
        }
        i += 1;
    }
    s.len()
}

/// The pieces of `s` between occurrences of `sep`. A text without the
/// separator is one piece, and the empty text is one empty piece.
pub open spec fn split_on(s: Seq<char>, sep: char) -> Seq<Seq<char>>
    decreases s.len(),
{
    if s.len() == 0 {
        seq![Seq::<char>::empty()]
    } else {
        let before = split_on(s.drop_last(), sep);
        if s.last() == sep {
            before.push(Seq::<char>::empty())
        } else {
            before.drop_last().push(before.last().push(s.last()))
        }
    }
}

/// A split has at least one piece.
pub proof fn lemma_split_nonempty(s: Seq<char>, sep: char)
    ensures
        split_on(s, sep).len() >= 1,
    decreases s.len(),
{
    if s.len() > 0 {
        lemma_split_nonempty(s.drop_last(), sep);
    }
}

/// Splits `s` at every occurrence of `sep`.
pub fn split(s: &Vec<char>, sep: char) -> (res: Vec<Vec<char>>)
    ensures
        texts(res@) == split_on(s@, sep),
        res.len() >= 1,
{
    let mut done: Vec<Vec<char>> = Vec::new();
    let mut piece: Vec<char> = Vec::new();
    let mut i: usize = 0;
    assert(s@.take(0) =~= Seq::<char>::empty());
    assert(texts(done@).push(piece@) =~= seq![Seq::<char>::empty()]);
    while i < s.len()
        invariant
            i <= s.len(),
            texts(done@).push(piece@) == split_on(s@.take(i as int), sep),
        decreases s.len() - i,
    {
        let c = s[i];
        let ghost before = split_on(s@.take(i as int), sep);
        proof {
            assert(s@.take(i + 1).drop_last() =~= s@.take(i as int));
            assert(s@.take(i + 1).last() == c);
            assert(before.drop_last() =~= texts(done@));
            assert(before.last() == piece@);
        }
        if c == sep {
            proof {
                lemma_texts_push(done@, piece);
            }
            done.push(piece);
            piece = Vec::new();
        } else {
            piece.push(c);
        }
        i += 1;
    }
    proof {
        assert(s@.take(s.len() as int) =~= s@);
        lemma_texts_push(done@, piece);
    }
    done.push(piece);
    done
}

/// The pieces joined again, with `sep` between neighbours.
pub open spec fn join_with(parts: Seq<Seq<char>>, sep: char) -> Seq<char>
    decreases parts.len(),
{
    if parts.len() == 0 {
        Seq::<char>::empty()
    } else if parts.len() == 1 {
        parts[0]
    } else {
        join_with(parts.drop_last(), sep).push(sep) + parts.last()
    }
}

/// Joins the pieces with `sep` between neighbours.
pub fn join(parts: &Vec<Vec<char>>, sep: char) -> (res: Vec<char>)
    ensures
        res@ == join_with(texts(parts@), sep),
{
    let mut out: Vec<char> = Vec::new();
    let mut i: usize = 0;
    assert(texts(parts@).take(0) =~= Seq::<Seq<char>>::empty());
    while i < parts.len()
        invariant
            i <= parts.len(),
            out@ == join_with(texts(parts@).take(i as int), sep),
        decreases parts.len() - i,
    {
        let ghost upto = texts(parts@).take(i + 1);
        proof {
            assert(upto.drop_last() =~= texts(parts@).take(i as int));
            assert(upto.last() == parts@[i as int]@);
        }
        if i > 0 {
            out.push(sep);
        } else {
            assert(out@ + parts@[0]@ =~= parts@[0]@);
        }
        append_chars(&mut out, &parts[i]);
        i += 1;
    }
    assert(texts(parts@).take(parts.len() as int) =~= texts(parts@));
    out
}

/// Whether a character is white space: the code points that carry the
/// Unicode `White_Space` property.
pub open spec fn is_space(c: char) -> bool {
    let u = c as u32;
    ||| 0x09 <= u <= 0x0D
    ||| u == 0x20
    ||| u == 0x85
    ||| u == 0xA0
    ||| u == 0x1680
    ||| 0x2000 <= u <= 0x200A
    ||| u == 0x2028
    ||| u == 0x2029
    ||| u == 0x202F
    ||| u == 0x205F
    ||| u == 0x3000
}

/// Whether a character is white space.
pub fn is_whitespace(c: char) -> (res: bool)
    ensures
        res == is_space(c),
{
    let u: u32 = c as u32;
    (0x09 <= u && u <= 0x0D) || u == 0x20 || u == 0x85 || u == 0xA0 || u == 0x1680 || (0x2000 <= u
        && u <= 0x200A) || u == 0x2028 || u == 0x2029 || u == 0x202F || u == 0x205F || u == 0x3000
}

/// The first position at or after `from` that holds no white space.
pub open spec fn skip_spaces(s: Seq<char>, from: int) -> int
    decreases s.len() - from,
{
    if 0 <= from < s.len() && is_space(s[from]) {
        skip_spaces(s, from + 1)
    } else {
        from
    }
}

/// The end of `s[lo..to]` once the white space at its end is left out.
pub open spec fn drop_spaces(s: Seq<char>, lo: int, to: int) -> int
    decreases to - lo,
{
    if lo < to <= s.len() && is_space(s[to - 1]) {
        drop_spaces(s, lo, to - 1)
    } else {
        to
    }
}

/// `s` without the white space at its two ends.
pub open spec fn trimmed(s: Seq<char>) -> Seq<char> {
    let a = skip_spaces(s, 0);
    let b = drop_spaces(s, a, s.len() as int);
    s.subrange(a, b)
}

/// `s` without the white space at its two ends.
pub fn trim(s: &Vec<char>) -> (res: Vec<char>)
    ensures
        res@ == trimmed(s@),
{
    let mut a: usize = 0;
    while a < s.len() && is_whitespace(s[a])
        invariant
            a <= s.len(),
            skip_spaces(s@, 0) == skip_spaces(s@, a as int),
        decreases s.len() - a,
    {
        a += 1;
    }
    let mut b: usize = s.len();
    while a < b && is_whitespace(s[b - 1])
        invariant
            a <= b <= s.len(),
            drop_spaces(s@, a as int, s.len() as int) == drop_spaces(s@, a as int, b as int),
        decreases b - a,
    {
        b -= 1;
    }
    slice_chars(s, a, b)
}

/// A piece without the carriage return at its end, if it has one.
pub open spec fn strip_cr(piece: Seq<char>) -> Seq<char> {
    if piece.len() > 0 && piece.last() == '\r' {
        piece.drop_last()
    } else {
        piece
    }
}

/// The lines of a buffer. A line ends at a line feed; the line feed, and a
/// carriage return right before it, are no part of the line. What follows the
/// last line feed is a line of its own unless it is empty.
pub open spec fn text_lines(s: Seq<char>) -> Seq<Seq<char>> {
    let pieces = split_on(s, '\n');
    let ended = Seq::new((pieces.len() - 1) as nat, |i: int| strip_cr(pieces[i]));
    if pieces.last().len() == 0 {
        ended
    } else {
        ended.push(pieces.last())
    }
}

/// Splits a buffer into its lines.
pub fn lines(s: &Vec<char>) -> (res: Vec<Vec<char>>)
    ensures
        texts(res@) == text_lines(s@),
{
    let pieces = split(s, '\n');
    let ghost all = split_on(s@, '\n');
    let mut out: Vec<Vec<char>> = Vec::new();
    let n: usize = pieces.len() - 1;
    let mut i: usize = 0;
    while i < n
        invariant
            i <= n,
            n == pieces.len() - 1,
            texts(pieces@) == all,
            texts(out@) == Seq::new(i as nat, |k: int| strip_cr(all[k])),
        decreases n - i,
    {
        let piece = &pieces[i];
        assert(piece@ == all[i as int]);
        let m: usize = piece.len();
        let line = if m > 0 && piece[m - 1] == '\r' {
            slice_chars(piece, 0, m - 1)
        } else {
            copy_chars(piece)
        };
        assert(line@ =~= strip_cr(all[i as int]));
        proof {
            lemma_texts_push(out@, line);
        }
        out.push(line);
        i += 1;
        assert(texts(out@) =~= Seq::new(i as nat, |k: int| strip_cr(all[k])));
    }
    assert(pieces@[n as int]@ == all.last());
    if pieces[n].len() > 0 {
        let tail = copy_chars(&pieces[n]);
        proof {
            lemma_texts_push(out@, tail);
        }
        out.push(tail);
    }
    out
}

/// `s` from position `at` on, with every occurrence of `from` replaced by
/// `to`, taken left to right without overlap. An empty `from` occurs nowhere.
pub open spec fn replaced_from(s: Seq<char>, from: Seq<char>, to: Seq<char>, at: int) -> Seq<char>
    decreases s.len() - at,
{
    if at >= s.len() || at < 0 {
        Seq::<char>::empty()
    } else if from.len() > 0 && occurs_at(s, from, at) {
        to + replaced_from(s, from, to, at + from.len())
    } else {
        seq![s[at]] + replaced_from(s, from, to, at + 1)
    }
}

/// `s` with every occurrence of `from` replaced by `to`.
pub open spec fn replaced(s: Seq<char>, from: Seq<char>, to: Seq<char>) -> Seq<char> {
    replaced_from(s, from, to, 0)
}

/// Replaces every occurrence of `from` in `s` by `to`.
pub fn replace(s: &Vec<char>, from: &Vec<char>, to: &Vec<char>) -> (res: Vec<char>)
    ensures
        res@ == replaced(s@, from@, to@),
{
    let mut out: Vec<char> = Vec::new();
    let mut i: usize = 0;
    while i < s.len()
        invariant
            i <= s.len(),
            replaced(s@, from@, to@) == out@ + replaced_from(s@, from@, to@, i as int),
        decreases s.len() - i,
    {
        let ghost rest = replaced_from(s@, from@, to@, i as int);
        if from.len() > 0 && matches_at(s, from, i) {
            let ghost after = replaced_from(s@, from@, to@, i + from.len());
            assert(rest == to@ + after);
            let ghost before = out@;
            append_chars(&mut out, to);
            assert(out@ + after =~= before + rest);
            i += from.len();
        } else {
            let ghost after = replaced_from(s@, from@, to@, i + 1);
            assert(rest == seq![s@[i as int]] + after);
            let ghost before = out@;
            out.push(s[i]);
            assert(out@ + after =~= before + rest);
            i += 1;
        }
    }
    assert(out@ + Seq::<char>::empty() =~= out@);
    out
}

/// Whether a character carries the Unicode `Alphabetic` property.
pub uninterp spec fn is_alphabetic(c: char) -> bool;

/// Asks `char::is_alphabetic` whether a character carries the Unicode
/// `Alphabetic` property; the answer depends on the character alone.
#[verifier::external_body]
pub(crate) fn char_is_alphabetic(c: char) -> (res: bool)
    ensures
        res == is_alphabetic(c),
{
    c.is_alphabetic()
}

/// Whether `s` begins with an alphabetic character.
pub open spec fn begins_alphabetic(s: Seq<char>) -> bool {
    s.len() > 0 && is_alphabetic(s[0])
}

/// Whether `s` begins with an alphabetic character.
pub fn starts_alphabetic(s: &Vec<char>) -> (res: bool)
    ensures
        res == begins_alphabetic(s@),
{
    s.len() > 0 && char_is_alphabetic(s[0])
}

/// Whether `c` stands nowhere in `s`.
pub open spec fn free_of(s: Seq<char>, c: char) -> bool {
    forall|k: int| 0 <= k < s.len() ==> s[k] != c
}

/// No piece of a split holds the separator.
pub proof fn lemma_split_pieces(s: Seq<char>, sep: char)
    ensures
        split_on(s, sep).len() >= 1,
        forall|i: int| 0 <= i < split_on(s, sep).len() ==> free_of(#[trigger] split_on(s, sep)[i], sep),
    decreases s.len(),
{
    if s.len() > 0 {
        lemma_split_pieces(s.drop_last(), sep);
        let before = split_on(s.drop_last(), sep);
        let now = split_on(s, sep);
        assert forall|i: int| 0 <= i < now.len() implies free_of(#[trigger] now[i], sep) by {
            if i < before.len() - 1 {
                assert(now[i] == before[i]);
            } else if s.last() != sep {
                assert(free_of(before[before.len() - 1], sep));
            } else if i < before.len() {
                assert(now[i] == before[i]);
            }
        }
    }
}

/// Splitting a text to which a text without the separator was appended:
/// the last piece grows by what was appended.
pub proof fn lemma_split_append(a: Seq<char>, b: Seq<char>, sep: char)
    requires
        free_of(b, sep),
    ensures
        split_on(a + b, sep) == split_on(a, sep).drop_last().push(split_on(a, sep).last() + b),
    decreases b.len(),
{
    lemma_split_nonempty(a, sep);
    let pieces = split_on(a, sep);
    if b.len() == 0 {
        assert(a + b =~= a);
        assert(pieces.last() + b =~= pieces.last());
        assert(pieces.drop_last().push(pieces.last()) =~= pieces);
    } else {
        let shorter = b.drop_last();
        lemma_split_append(a, shorter, sep);
        assert((a + b).drop_last() =~= a + shorter);
        assert((a + b).last() == b.last());
        let mid = split_on(a + shorter, sep);
        assert(mid.drop_last() =~= pieces.drop_last());
        assert((pieces.last() + shorter).push(b.last()) =~= pieces.last() + b);
    }
}

/// Splitting what was joined gives the pieces back, where there is at least
/// one piece and none holds the separator.
pub proof fn lemma_split_join(parts: Seq<Seq<char>>, sep: char)
    requires
        parts.len() >= 1,
        forall|i: int| 0 <= i < parts.len() ==> free_of(#[trigger] parts[i], sep),
    ensures
        split_on(join_with(parts, sep), sep) == parts,
    decreases parts.len(),
{
    let empty = Seq::<char>::empty();
    if parts.len() == 1 {
        lemma_split_append(empty, parts[0], sep);
        assert(empty + parts[0] =~= parts[0]);
        assert(split_on(empty, sep) =~= seq![empty]);
        assert(seq![empty].drop_last().push(empty + parts[0]) =~= parts);
    } else {
        let front = parts.drop_last();
        assert forall|i: int| 0 <= i < front.len() implies free_of(#[trigger] front[i], sep) by {
            assert(front[i] == parts[i]);
        }
        lemma_split_join(front, sep);
        let head = join_with(front, sep).push(sep);
        assert(head.drop_last() =~= join_with(front, sep));
        assert(split_on(head, sep) == front.push(empty));
        lemma_split_append(head, parts.last(), sep);
        assert(front.push(empty).drop_last() =~= front);
        assert(empty + parts.last() =~= parts.last());
        assert(front.push(parts.last()) =~= parts);
    }
}

} // verus!
