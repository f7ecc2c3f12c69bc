//! Characters, whitespace, and text split into trimmed pieces: the parts of
//! parsing that the corpus and a family stack have in common.

use vstd::prelude::*;

verus! {

broadcast use vstd::string::group_string_axioms;

/// Whitespace in the sense of Unicode's `White_Space` property: the characters
/// that trimming removes.
pub open spec fn is_whitespace_char(c: char) -> bool {
    let u = c as u32;
    ||| 0x9 <= u <= 0xd
    ||| u == 0x20
    ||| u == 0x85
    ||| u == 0xa0
    ||| u == 0x1680
    ||| 0x2000 <= u <= 0x200a
    ||| u == 0x2028
    ||| u == 0x2029
    ||| u == 0x202f
    ||| u == 0x205f
    ||| u == 0x3000
}

/// `s` without its leading whitespace.
pub open spec fn trim_start(s: Seq<char>) -> Seq<char>
    decreases s.len(),
{
    if s.len() > 0 && is_whitespace_char(s[0]) {
        trim_start(s.drop_first())
    } else {
        s
    }
}

/// `s` without its trailing whitespace.
pub open spec fn trim_end(s: Seq<char>) -> Seq<char>
    decreases s.len(),
{
    if s.len() > 0 && is_whitespace_char(s.last()) {
        trim_end(s.drop_last())
    } else {
        s
    }
}

/// `s` without the whitespace around it.
pub open spec fn trim(s: Seq<char>) -> Seq<char> {
    trim_end(trim_start(s))
}

/// The pieces of `text` between its `sep` characters, in order. There is always
/// at least one, the piece after the last separator, which is empty when the
/// text ends with one.
pub open spec fn split_on(text: Seq<char>, sep: char) -> Seq<Seq<char>>
    decreases text.len(),
{
    if text.len() == 0 {
        seq![Seq::empty()]
    } else {
        let before = split_on(text.drop_last(), sep);
        if text.last() == sep {
            before.push(Seq::empty())
        } else {
            before.update(before.len() - 1, before.last().push(text.last()))
        }
    }
}

/// The pieces, each trimmed, with the ones that were blank left out.
pub open spec fn trimmed_pieces(pieces: Seq<Seq<char>>) -> Seq<Seq<char>>
    decreases pieces.len(),
{
    if pieces.len() == 0 {
        Seq::empty()
    } else {
        let rest = trimmed_pieces(pieces.drop_last());
        let last = trim(pieces.last());
        if last.len() == 0 {
            rest
        } else {
            rest.push(last)
        }
    }
}

/// What a trimmed piece of text split on `sep` looks like: not empty, without
/// whitespace at either end, and without `sep` anywhere.
pub open spec fn is_trimmed_piece(piece: Seq<char>, sep: char) -> bool {
    &&& piece.len() > 0
    &&& !is_whitespace_char(piece[0])
    &&& !is_whitespace_char(piece.last())
    &&& forall|j: int| 0 <= j < piece.len() ==> #[trigger] piece[j] != sep
}

/// Whether `c` is whitespace, as `char::is_whitespace` decides it.
pub fn is_whitespace(c: char) -> (ws: bool)
    ensures
        ws == is_whitespace_char(c),
{
    let u = c as u32;
    (0x9 <= u && u <= 0xd) || u == 0x20 || u == 0x85 || u == 0xa0 || u == 0x1680 || (0x2000 <= u
        && u <= 0x200a) || u == 0x2028 || u == 0x2029 || u == 0x202f || u == 0x205f || u == 0x3000
}

/// `String::push`: appends one character.
#[verifier::external_body]
fn push_char(s: &mut String, c: char)
    ensures
        final(s)@ == old(s)@.push(c),
{
    s.push(c);
}

/// The characters of `text`, in order.
pub(crate) fn chars_of(text: &str) -> (chars: Vec<char>)
    ensures
        chars@ == text@,
{
    let mut chars: Vec<char> = Vec::new();
    for c in it: text.chars()
        invariant
            chars@ == it.seq().take(it.index()),
            it.seq() == text@,
    {
        chars.push(c);
    }
    chars
}

/// The text of `chars[lo..hi]`.
pub(crate) fn string_of(chars: &Vec<char>, lo: usize, hi: usize) -> (text: String)
    requires
        lo <= hi <= chars@.len(),
    ensures
        text@ == chars@.subrange(lo as int, hi as int),
{
    let mut text = String::new();
    let mut k = lo;
    while k < hi
        invariant
            lo <= k <= hi <= chars@.len(),
            text@ == chars@.subrange(lo as int, k as int),
        decreases hi - k,
    {
        push_char(&mut text, chars[k]);
        assert(chars@.subrange(lo as int, k + 1) =~= chars@.subrange(lo as int, k as int).push(
            chars@[k as int],
        ));
        k = k + 1;
    }
    text
}

pub(crate) proof fn lemma_split_on_nonempty(text: Seq<char>, sep: char)
    ensures
        split_on(text, sep).len() >= 1,
    decreases text.len(),
{
    if text.len() > 0 {
        lemma_split_on_nonempty(text.drop_last(), sep);
    }
}

/// One more character either starts a new piece (a separator) or extends the
/// last one.
pub(crate) proof fn lemma_split_on_push(text: Seq<char>, sep: char, c: char)
    ensures
        c == sep ==> split_on(text.push(c), sep) == split_on(text, sep).push(Seq::empty()),
        c != sep ==> split_on(text.push(c), sep).drop_last() == split_on(text, sep).drop_last(),
        c != sep ==> split_on(text.push(c), sep).last() == split_on(text, sep).last().push(c),
        split_on(text.push(c), sep).len() >= 1,
{
    lemma_split_on_nonempty(text, sep);
    lemma_split_on_nonempty(text.push(c), sep);
    assert(text.push(c).drop_last() =~= text);
    if c != sep {
        let before = split_on(text, sep);
        assert(split_on(text.push(c), sep).drop_last() =~= before.drop_last());
    }
}

/// Two pieces of text joined by a separator split into the pieces of the one
/// followed by those of the other.
pub proof fn lemma_split_on_concat(a: Seq<char>, b: Seq<char>, sep: char)
    ensures
        split_on(a.push(sep) + b, sep) == split_on(a, sep) + split_on(b, sep),
    decreases b.len(),
{
    lemma_split_on_nonempty(a, sep);
    if b.len() == 0 {
        assert(a.push(sep) + b =~= a.push(sep));
        assert(a.push(sep).drop_last() =~= a);
        assert(split_on(a, sep) + split_on(b, sep) =~= split_on(a, sep).push(Seq::empty()));
    } else {
        let front = b.drop_last();
        lemma_split_on_concat(a, front, sep);
        lemma_split_on_nonempty(front, sep);
        let whole = a.push(sep) + b;
        assert(whole.drop_last() =~= a.push(sep) + front);
        assert(whole.last() == b.last());
        assert(split_on(whole, sep) =~= split_on(a, sep) + split_on(b, sep));
    }
}

proof fn lemma_trim_start_is_suffix(s: Seq<char>) -> (k: int)
    ensures
        0 <= k <= s.len(),
        trim_start(s) == s.subrange(k, s.len() as int),
        trim_start(s).len() > 0 ==> !is_whitespace_char(trim_start(s)[0]),
    decreases s.len(),
{
    if s.len() > 0 && is_whitespace_char(s[0]) {
        let k = lemma_trim_start_is_suffix(s.drop_first());
        assert(s.drop_first().subrange(k, s.drop_first().len() as int) =~= s.subrange(
            k + 1,
            s.len() as int,
        ));
        k + 1
    } else {
        assert(s.subrange(0, s.len() as int) =~= s);
        0
    }
}

proof fn lemma_trim_end_is_prefix(s: Seq<char>) -> (m: int)
    ensures
        0 <= m <= s.len(),
        trim_end(s) == s.subrange(0, m),
        trim_end(s).len() > 0 ==> !is_whitespace_char(trim_end(s).last()),
        trim_end(s).len() > 0 && s.len() > 0 && !is_whitespace_char(s[0]) ==> !is_whitespace_char(
            trim_end(s)[0],
        ),
    decreases s.len(),
{
    if s.len() > 0 && is_whitespace_char(s.last()) {
        let m = lemma_trim_end_is_prefix(s.drop_last());
        assert(s.drop_last().subrange(0, m) =~= s.subrange(0, m));
        if m > 0 {
            assert(s.drop_last()[0] == s[0]);
        }
        m
    } else {
        assert(s.subrange(0, s.len() as int) =~= s);
        s.len() as int
    }
}

/// What trimming leaves: a piece of the text that neither starts nor ends with
/// whitespace.
pub(crate) proof fn lemma_trim_shape(s: Seq<char>) -> (bounds: (int, int))
    ensures
        0 <= bounds.0 <= bounds.1 <= s.len(),
        trim(s) == s.subrange(bounds.0, bounds.1),
        trim(s).len() > 0 ==> !is_whitespace_char(trim(s)[0]) && !is_whitespace_char(
            trim(s).last(),
        ),
{
    let k = lemma_trim_start_is_suffix(s);
    let m = lemma_trim_end_is_prefix(trim_start(s));
    assert(s.subrange(k, s.len() as int).subrange(0, m) =~= s.subrange(k, k + m));
    (k, k + m)
}

pub(crate) proof fn lemma_split_on_has_no_separator(text: Seq<char>, sep: char)
    ensures
        forall|i: int, j: int|
            0 <= i < split_on(text, sep).len() && 0 <= j < split_on(text, sep)[i].len()
                ==> #[trigger] split_on(text, sep)[i][j] != sep,
    decreases text.len(),
{
    lemma_split_on_nonempty(text, sep);
    if text.len() > 0 {
        lemma_split_on_has_no_separator(text.drop_last(), sep);
        lemma_split_on_nonempty(text.drop_last(), sep);
    }
}

proof fn lemma_trimmed_pieces_shape_of(pieces: Seq<Seq<char>>, sep: char)
    requires
        forall|i: int, j: int|
            0 <= i < pieces.len() && 0 <= j < pieces[i].len() ==> #[trigger] pieces[i][j] != sep,
    ensures
        forall|i: int|
            0 <= i < trimmed_pieces(pieces).len() ==> is_trimmed_piece(
                #[trigger] trimmed_pieces(pieces)[i],
                sep,
            ),
    decreases pieces.len(),
{
    if pieces.len() > 0 {
        let rest = pieces.drop_last();
        assert forall|i: int, j: int|
            0 <= i < rest.len() && 0 <= j < rest[i].len() implies #[trigger] rest[i][j] != sep by {
            assert(rest[i] == pieces[i]);
        }
        lemma_trimmed_pieces_shape_of(rest, sep);
        let piece = pieces.last();
        let (a, b) = lemma_trim_shape(piece);
        let text = trim(piece);
        assert forall|j: int| 0 <= j < text.len() implies text[j] != sep by {
            assert(text[j] == piece[a + j]);
            assert(pieces[pieces.len() - 1][a + j] != sep);
        }
        let before = trimmed_pieces(rest);
        let all = trimmed_pieces(pieces);
        assert forall|i: int| 0 <= i < all.len() implies is_trimmed_piece(#[trigger] all[i], sep) by {
            if i < before.len() {
                assert(all[i] == before[i]);
            } else {
                assert(all[i] == text);
            }
        }
    }
}

/// Every trimmed piece of a text split on `sep` is not empty, has no whitespace
/// at either end, and holds no `sep`.
pub proof fn lemma_trimmed_pieces_shape(text: Seq<char>, sep: char)
    ensures
        forall|i: int|
            0 <= i < trimmed_pieces(split_on(text, sep)).len() ==> is_trimmed_piece(
                #[trigger] trimmed_pieces(split_on(text, sep))[i],
                sep,
            ),
{
    lemma_split_on_has_no_separator(text, sep);
    lemma_trimmed_pieces_shape_of(split_on(text, sep), sep);
}

pub(crate) proof fn lemma_split_without_separator(text: Seq<char>, sep: char)
    requires
        forall|j: int| 0 <= j < text.len() ==> #[trigger] text[j] != sep,
    ensures
        split_on(text, sep) == seq![text],
    decreases text.len(),
{
    if text.len() > 0 {
        let front = text.drop_last();
        assert forall|j: int| 0 <= j < front.len() implies #[trigger] front[j] != sep by {
            assert(front[j] == text[j]);
        }
        lemma_split_without_separator(front, sep);
        assert(text.last() != sep);
        assert(front.push(text.last()) =~= text);
        assert(split_on(text, sep) =~= seq![text]);
    } else {
        assert(text =~= Seq::<char>::empty());
    }
}

/// Where the trimmed text of `chars[lo..hi]` starts and ends.
pub(crate) fn trimmed_bounds(chars: &Vec<char>, lo: usize, hi: usize) -> (bounds: (usize, usize))
    requires
        lo <= hi <= chars@.len(),
    ensures
        lo <= bounds.0 <= bounds.1 <= hi,
        chars@.subrange(bounds.0 as int, bounds.1 as int) == trim(chars@.subrange(lo as int, hi as int)),
{
    let ghost line = chars@.subrange(lo as int, hi as int);
    let mut a = lo;
    while a < hi && is_whitespace(chars[a])
        invariant
            lo <= a <= hi <= chars@.len(),
            trim_start(line) == trim_start(chars@.subrange(a as int, hi as int)),
        decreases hi - a,
    {
        assert(chars@.subrange(a as int, hi as int).drop_first() =~= chars@.subrange(
            a + 1,
            hi as int,
        ));
        a = a + 1;
    }
    assert(trim_start(line) == chars@.subrange(a as int, hi as int));
    let mut b = hi;
    while b > a && is_whitespace(chars[b - 1])
        invariant
            lo <= a <= b <= hi <= chars@.len(),
            trim(line) == trim_end(chars@.subrange(a as int, b as int)),
        decreases b - a,
    {
        assert(chars@.subrange(a as int, b as int).drop_last() =~= chars@.subrange(
            a as int,
            b - 1,
        ));
        b = b - 1;
    }
    (a, b)
}

/// The characters that a pair of bounds marks out of `chars`.
pub open spec fn piece_at(chars: Seq<char>, bounds: (usize, usize)) -> Seq<char> {
    chars.subrange(bounds.0 as int, bounds.1 as int)
}

/// Appends the bounds of the trimmed text of `chars[lo..hi]`, unless it is
/// blank.
fn push_trimmed(chars: &Vec<char>, lo: usize, hi: usize, pieces: &mut Vec<(usize, usize)>)
    requires
        lo <= hi <= chars@.len(),
        forall|i: int|
            0 <= i < old(pieces)@.len() ==> #[trigger] old(pieces)@[i].0 <= old(pieces)@[i].1
                <= chars@.len(),
    ensures
        forall|i: int|
            0 <= i < final(pieces)@.len() ==> #[trigger] final(pieces)@[i].0
                <= final(pieces)@[i].1 <= chars@.len(),
        ({
            let t = trim(chars@.subrange(lo as int, hi as int));
            final(pieces)@.map_values(|b: (usize, usize)| piece_at(chars@, b)) == if t.len()
                == 0 {
                old(pieces)@.map_values(|b: (usize, usize)| piece_at(chars@, b))
            } else {
                old(pieces)@.map_values(|b: (usize, usize)| piece_at(chars@, b)).push(t)
            }
        }),
{
    let ghost before = pieces@.map_values(|b: (usize, usize)| piece_at(chars@, b));
    let (a, b) = trimmed_bounds(chars, lo, hi);
    if a < b {
        let ghost older = pieces@;
        pieces.push((a, b));
        assert forall|i: int| 0 <= i < pieces@.len() implies #[trigger] pieces@[i].0
            <= pieces@[i].1 <= chars@.len() by {
            if i < older.len() {
                assert(older == old(pieces)@);
                assert(pieces@[i] == old(pieces)@[i]);
                assert(old(pieces)@[i].0 <= old(pieces)@[i].1 <= chars@.len());
            } else {
                assert(pieces@[i] == (a, b));
            }
        }
        assert(pieces@.map_values(|b: (usize, usize)| piece_at(chars@, b)) =~= before.push(
            chars@.subrange(a as int, b as int),
        ));
    }
}

/// The bounds, within `chars`, of the trimmed pieces that `chars[start..]` splits
/// into on `sep`, blank ones left out.
pub(crate) fn split_trimmed(chars: &Vec<char>, start: usize, sep: char) -> (pieces: Vec<
    (usize, usize),
>)
    requires
        start <= chars@.len(),
    ensures
        forall|i: int|
            0 <= i < pieces@.len() ==> #[trigger] pieces@[i].0 <= pieces@[i].1 <= chars@.len(),
        pieces@.map_values(|b: (usize, usize)| piece_at(chars@, b)) == trimmed_pieces(
            split_on(chars@.subrange(start as int, chars@.len() as int), sep),
        ),
{
    let mut pieces: Vec<(usize, usize)> = Vec::new();
    let mut piece_start = start;
    let mut i = start;
    assert(chars@.subrange(start as int, start as int) =~= Seq::<char>::empty());
    assert(split_on(Seq::<char>::empty(), sep).drop_last() =~= Seq::<Seq<char>>::empty());
    while i < chars.len()
        invariant
            start <= piece_start <= i <= chars@.len(),
            forall|k: int|
                0 <= k < pieces@.len() ==> #[trigger] pieces@[k].0 <= pieces@[k].1 <= chars@.len(),
            split_on(chars@.subrange(start as int, i as int), sep).len() >= 1,
            pieces@.map_values(|b: (usize, usize)| piece_at(chars@, b)) == trimmed_pieces(
                split_on(chars@.subrange(start as int, i as int), sep).drop_last(),
            ),
            split_on(chars@.subrange(start as int, i as int), sep).last() == chars@.subrange(
                piece_start as int,
                i as int,
            ),
        decreases chars@.len() - i,
    {
        let ghost before = chars@.subrange(start as int, i as int);
        let c = chars[i];
        proof {
            lemma_split_on_push(before, sep, c);
            assert(chars@.subrange(start as int, i + 1) =~= before.push(c));
        }
        if c == sep {
            push_trimmed(chars, piece_start, i, &mut pieces);
            proof {
                let lines = split_on(before, sep);
                assert(lines.drop_last().push(lines.last()) =~= lines);
                assert(split_on(before.push(c), sep).drop_last() =~= lines);
                assert(chars@.subrange(i + 1, i + 1) =~= Seq::<char>::empty());
            }
            piece_start = i + 1;
        } else {
            assert(chars@.subrange(piece_start as int, i + 1) =~= chars@.subrange(
                piece_start as int,
                i as int,
            ).push(c));
        }
        i = i + 1;
    }
    push_trimmed(chars, piece_start, chars.len(), &mut pieces);
    proof {
        let lines = split_on(chars@.subrange(start as int, i as int), sep);
        assert(lines.drop_last().push(lines.last()) =~= lines);
    }
    pieces
}

/// Trimming pieces one run at a time is trimming them all.
pub proof fn lemma_trimmed_pieces_concat(x: Seq<Seq<char>>, y: Seq<Seq<char>>)
    ensures
        trimmed_pieces(x + y) == trimmed_pieces(x) + trimmed_pieces(y),
    decreases y.len(),
{
    if y.len() == 0 {
        assert(x + y =~= x);
        assert(trimmed_pieces(x) + trimmed_pieces(y) =~= trimmed_pieces(x));
    } else {
        lemma_trimmed_pieces_concat(x, y.drop_last());
        assert((x + y).drop_last() =~= x + y.drop_last());
        assert((x + y).last() == y.last());
        assert(trimmed_pieces(x + y) =~= trimmed_pieces(x) + trimmed_pieces(y));
    }
}

/// Text that neither starts nor ends with whitespace trims to itself.
pub proof fn lemma_trim_keeps_trimmed_text(text: Seq<char>)
    requires
        text.len() > 0,
        !is_whitespace_char(text[0]),
        !is_whitespace_char(text.last()),
    ensures
        trim(text) == text,
{
    assert(trim_start(text) == text);
    assert(trim_end(text) == text);
}

/// A trimmed piece splits into itself alone, and trimming leaves it as it is.
pub proof fn lemma_trimmed_piece_is_its_own_split(piece: Seq<char>, sep: char)
    requires
        is_trimmed_piece(piece, sep),
    ensures
        trimmed_pieces(split_on(piece, sep)) == seq![piece],
{
    lemma_split_without_separator(piece, sep);
    lemma_trim_keeps_trimmed_text(piece);
    let pieces = seq![piece];
    assert(pieces.drop_last() =~= Seq::<Seq<char>>::empty());
    assert(trimmed_pieces(pieces.drop_last()) =~= Seq::<Seq<char>>::empty());
    assert(pieces.last() == piece);
    assert(trimmed_pieces(pieces) =~= Seq::<Seq<char>>::empty().push(piece));
}

} // verus!
