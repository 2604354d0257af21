//! Splitting of byte text: separators, lines, leading whitespace.

use vstd::prelude::*;
use vstd::slice::{slice_subrange, slice_to_vec};

verus! {

/// The line feed that ends a line.
pub const LINE_FEED: u8 = 10;

/// The carriage return that may stand before a line feed.
pub const CARRIAGE_RETURN: u8 = 13;

/// The blank that separates the fields of a line.
pub const SPACE: u8 = 32;

/// The colon that separates a name from its value.
pub const COLON: u8 = 58;

/// Index of the first `sep` in `s`, or the length of `s` where it holds none.
pub open spec fn find(s: Seq<u8>, sep: u8) -> nat
    decreases s.len(),
{
    if s.len() == 0 || s[0] == sep {
        0
    } else {
        1 + find(s.skip(1), sep)
    }
}

/// `find` stays within the text, no `sep` stands before it, and one stands at
/// it unless the text holds none.
pub proof fn lemma_find_first(s: Seq<u8>, sep: u8)
    ensures
        find(s, sep) <= s.len(),
        forall|k: int| 0 <= k < find(s, sep) ==> s[k] != sep,
        find(s, sep) < s.len() ==> s[find(s, sep) as int] == sep,
    decreases s.len(),
{
    if s.len() == 0 || s[0] == sep {
    } else {
        let rest = s.skip(1);
        lemma_find_first(rest, sep);
        assert forall|k: int| 0 <= k < find(s, sep) implies s[k] != sep by {
            if k > 0 {
                assert(rest[k - 1] == s[k]);
            }
        }
        assert(find(s, sep) < s.len() ==> rest[find(rest, sep) as int] == s[find(s, sep) as int]);
    }
}

/// An index with no `sep` before it, and with `sep` at it or the end of the
/// text, is the one that `find` gives.
pub proof fn lemma_find_unique(s: Seq<u8>, sep: u8, i: int)
    requires
        0 <= i <= s.len(),
        forall|k: int| 0 <= k < i ==> s[k] != sep,
        i < s.len() ==> s[i] == sep,
    ensures
        find(s, sep) == i,
    decreases s.len(),
{
    if s.len() == 0 || s[0] == sep {
    } else {
        let rest = s.skip(1);
        assert forall|k: int| 0 <= k < i - 1 implies rest[k] != sep by {
            assert(rest[k] == s[k + 1]);
        }
        lemma_find_unique(rest, sep, i - 1);
    }
}

/// Finds the first `sep` at or after `from`.
pub fn find_from(s: &[u8], from: usize, sep: u8) -> (at: usize)
    requires
        from <= s.len(),
    ensures
        at == from + find(s@.skip(from as int), sep),
        from <= at <= s.len(),
{
    let mut at: usize = from;
    while at < s.len() && s[at] != sep
        invariant
            from <= at <= s.len(),
            forall|k: int| from <= k < at ==> s@[k] != sep,
        decreases s.len() - at,
    {
        at = at + 1;
    }
    proof {
        let rest = s@.skip(from as int);
        assert forall|k: int| 0 <= k < at - from implies rest[k] != sep by {
            assert(rest[k] == s@[from + k]);
        }
        lemma_find_unique(rest, sep, at - from);
    }
    at
}

/// The pieces of `s` between its `sep` bytes, in order. A text without `sep`
/// is one piece; two `sep` in a row, or one at either end, bound an empty
/// piece.
pub open spec fn split(s: Seq<u8>, sep: u8) -> Seq<Seq<u8>>
    decreases s.len(),
{
    let at: int = find(s, sep) as int;
    if at >= s.len() {
        seq![s]
    } else {
        seq![s.take(at)] + split(s.skip(at + 1), sep)
    }
}

/// The pieces joined again, one `sep` between neighbours.
pub open spec fn join(pieces: Seq<Seq<u8>>, sep: u8) -> Seq<u8>
    decreases pieces.len(),
{
    if pieces.len() == 0 {
        Seq::empty()
    } else if pieces.len() == 1 {
        pieces[0]
    } else {
        pieces[0] + seq![sep] + join(pieces.skip(1), sep)
    }
}

/// The byte contents of a list of owned pieces.
pub open spec fn contents(pieces: Seq<Vec<u8>>) -> Seq<Seq<u8>> {
    Seq::new(pieces.len(), |i: int| pieces[i]@)
}

/// Splitting loses nothing: there is at least one piece, no piece holds
/// `sep`, and the pieces joined by `sep` are the text again.
pub proof fn lemma_split_join(s: Seq<u8>, sep: u8)
    ensures
        split(s, sep).len() >= 1,
        forall|i: int, k: int|
            0 <= i < split(s, sep).len() && 0 <= k < split(s, sep)[i].len() ==> split(
                s,
                sep,
            )[i][k] != sep,
        join(split(s, sep), sep) == s,
    decreases s.len(),
{
    lemma_find_first(s, sep);
    let at: int = find(s, sep) as int;
    if at >= s.len() {
    } else {
        let rest = s.skip(at + 1);
        let tail = split(rest, sep);
        let all = split(s, sep);
        lemma_split_join(rest, sep);
        assert(all.skip(1) =~= tail);
        assert forall|i: int, k: int| 0 <= i < all.len() && 0 <= k < all[i].len() implies all[i][k]
            != sep by {
            if i > 0 {
                assert(all[i] == tail[i - 1]);
            }
        }
        assert(s.take(at) + seq![sep] + rest =~= s);
    }
}

/// The text is split in one way only: pieces free of `sep` that join to the
/// text are the pieces that `split` gives.
pub proof fn lemma_split_unique(pieces: Seq<Seq<u8>>, s: Seq<u8>, sep: u8)
    requires
        pieces.len() >= 1,
        forall|i: int, k: int|
            0 <= i < pieces.len() && 0 <= k < pieces[i].len() ==> pieces[i][k] != sep,
        join(pieces, sep) == s,
    ensures
        split(s, sep) == pieces,
    decreases pieces.len(),
{
    let head = pieces[0];
    if pieces.len() == 1 {
        lemma_find_unique(s, sep, s.len() as int);
        assert(split(s, sep) =~= pieces);
    } else {
        let others = pieces.skip(1);
        let rest = join(others, sep);
        assert forall|k: int| 0 <= k < head.len() implies s[k] != sep by {
            assert(s[k] == head[k]);
        }
        lemma_find_unique(s, sep, head.len() as int);
        assert(s.take(head.len() as int) =~= head);
        assert(s.skip(head.len() as int + 1) =~= rest);
        assert forall|i: int, k: int|
            0 <= i < others.len() && 0 <= k < others[i].len() implies others[i][k] != sep by {
            assert(others[i] == pieces[i + 1]);
        }
        lemma_split_unique(others, rest, sep);
        assert(split(s, sep) =~= pieces);
    }
}

/// Splits `s` at every `sep`.
pub fn split_bytes(s: &[u8], sep: u8) -> (pieces: Vec<Vec<u8>>)
    ensures
        contents(pieces@) == split(s@, sep),
{
    let mut pieces: Vec<Vec<u8>> = Vec::new();
    let mut start: usize = 0;
    proof {
        assert(s@.skip(0) =~= s@);
        assert(contents(pieces@) + split(s@, sep) =~= split(s@, sep));
    }
    loop
        invariant_except_break
            start <= s.len(),
            split(s@, sep) == contents(pieces@) + split(s@.skip(start as int), sep),
        ensures
            contents(pieces@) == split(s@, sep),
        decreases s.len() - start,
    {
        let at: usize = find_from(s, start, sep);
        let piece = slice_to_vec(slice_subrange(s, start, at));
        let ghost rest = s@.skip(start as int);
        let ghost before = contents(pieces@);
        pieces.push(piece);
        if at >= s.len() {
            proof {
                assert(rest.take(at - start) =~= rest);
                assert(piece@ =~= rest);
                assert(contents(pieces@) =~= before + seq![rest]);
            }
            break ;
        }
        proof {
            assert(piece@ =~= rest.take(at - start));
            assert(rest.skip(at - start + 1) =~= s@.skip(at + 1));
            assert(contents(pieces@) =~= before + seq![rest.take(at - start)]);
            assert(before + split(rest, sep) =~= contents(pieces@) + split(
                s@.skip(at + 1),
                sep,
            ));
        }
        start = at + 1;
    }
    pieces
}

/// A line without the carriage return that may end it.
pub open spec fn strip_carriage_return(line: Seq<u8>) -> Seq<u8> {
    if line.len() > 0 && line.last() == CARRIAGE_RETURN {
        line.drop_last()
    } else {
        line
    }
}

/// The lines of a text. A line ends at a line feed, which is not part of it,
/// nor is a carriage return right before that line feed. What follows the
/// last line feed is a line too, unless it is empty.
pub open spec fn lines(src: Seq<u8>) -> Seq<Seq<u8>>
    decreases src.len(),
{
    let at: int = find(src, LINE_FEED) as int;
    if src.len() == 0 {
        Seq::empty()
    } else if at >= src.len() {
        seq![src]
    } else {
        seq![strip_carriage_return(src.take(at))] + lines(src.skip(at + 1))
    }
}

/// The first line of a text; empty where the text has no line.
pub open spec fn first_line(src: Seq<u8>) -> Seq<u8> {
    if lines(src).len() == 0 {
        Seq::empty()
    } else {
        lines(src)[0]
    }
}

/// No line holds a line feed.
pub proof fn lemma_lines_hold_no_line_feed(src: Seq<u8>)
    ensures
        forall|i: int, k: int|
            0 <= i < lines(src).len() && 0 <= k < lines(src)[i].len() ==> lines(src)[i][k]
                != LINE_FEED,
    decreases src.len(),
{
    lemma_find_first(src, LINE_FEED);
    let at: int = find(src, LINE_FEED) as int;
    let all = lines(src);
    if src.len() == 0 || at >= src.len() {
    } else {
        let tail = lines(src.skip(at + 1));
        lemma_lines_hold_no_line_feed(src.skip(at + 1));
        assert forall|i: int, k: int| 0 <= i < all.len() && 0 <= k < all[i].len() implies all[i][k]
            != LINE_FEED by {
            if i > 0 {
                assert(all[i] == tail[i - 1]);
            }
        }
    }
}

/// Cuts the carriage return off the end of a line that has one.
fn without_carriage_return(line: &[u8]) -> (r: &[u8])
    ensures
        r@ == strip_carriage_return(line@),
{
    let n: usize = line.len();
    if n > 0 && line[n - 1] == CARRIAGE_RETURN {
        let r = slice_subrange(line, 0, n - 1);
        proof {
            assert(r@ =~= line@.drop_last());
        }
        r
    } else {
        line
    }
}

/// The first line of `src`.
pub fn first_line_of(src: &[u8]) -> (line: &[u8])
    ensures
        line@ == first_line(src@),
{
    let at: usize = find_from(src, 0, LINE_FEED);
    proof {
        assert(src@.skip(0) =~= src@);
    }
    if at >= src.len() {
        proof {
            assert(src@.len() == 0 ==> src@ =~= Seq::<u8>::empty());
        }
        src
    } else {
        let head = slice_subrange(src, 0, at);
        proof {
            assert(head@ =~= src@.take(at as int));
        }
        without_carriage_return(head)
    }
}

/// The lines of `src`, each in a vector of its own.
pub fn split_lines(src: &[u8]) -> (out: Vec<Vec<u8>>)
    ensures
        contents(out@) == lines(src@),
{
    let mut out: Vec<Vec<u8>> = Vec::new();
    let mut start: usize = 0;
    proof {
        assert(src@.skip(0) =~= src@);
        assert(contents(out@) + lines(src@) =~= lines(src@));
    }
    while start < src.len()
        invariant
            start <= src.len(),
            lines(src@) == contents(out@) + lines(src@.skip(start as int)),
        decreases src.len() - start,
    {
        let at: usize = find_from(src, start, LINE_FEED);
        let ghost rest = src@.skip(start as int);
        let ghost before = contents(out@);
        let whole = slice_subrange(src, start, at);
        proof {
            assert(whole@ =~= rest.take(at - start));
        }
        if at >= src.len() {
            out.push(slice_to_vec(whole));
            proof {
                assert(rest.take(at - start) =~= rest);
                assert(src@.skip(at as int) =~= Seq::<u8>::empty());
                assert(contents(out@) =~= before + seq![rest]);
                assert(before + lines(rest) =~= contents(out@) + lines(src@.skip(at as int)));
            }
            start = at;
        } else {
            out.push(slice_to_vec(without_carriage_return(whole)));
            proof {
                assert(rest.skip(at - start + 1) =~= src@.skip(at + 1));
                assert(contents(out@) =~= before + seq![
                    strip_carriage_return(rest.take(at - start)),
                ]);
                assert(before + lines(rest) =~= contents(out@) + lines(src@.skip(at + 1)));
            }
            start = at + 1;
        }
    }
    proof {
        assert(contents(out@) + lines(src@.skip(start as int)) =~= contents(out@));
    }
    out
}

/// Whether a byte is ASCII white space: a blank, a tab, a line feed, a
/// vertical tab, a form feed or a carriage return.
pub open spec fn is_whitespace(b: u8) -> bool {
    b == SPACE || 9 <= b <= 13
}

/// The text without the white space it starts with.
pub open spec fn trim_start(s: Seq<u8>) -> Seq<u8>
    decreases s.len(),
{
    if s.len() > 0 && is_whitespace(s[0]) {
        trim_start(s.skip(1))
    } else {
        s
    }
}

/// Drops the white space that `s` starts with.
pub fn trim_start_bytes(s: &[u8]) -> (r: &[u8])
    ensures
        r@ == trim_start(s@),
{
    let mut at: usize = 0;
    proof {
        assert(s@.skip(0) =~= s@);
    }
    while at < s.len() && (s[at] == SPACE || (9 <= s[at] && s[at] <= 13))
        invariant
            at <= s.len(),
            trim_start(s@) == trim_start(s@.skip(at as int)),
        decreases s.len() - at,
    {
        proof {
            assert(s@.skip(at as int).skip(1) =~= s@.skip(at + 1));
        }
        at = at + 1;
    }
    let r = slice_subrange(s, at, s.len());
    proof {
        assert(r@ =~= s@.skip(at as int));
    }
    r
}

/// The text before the first `sep` and the text after it; nothing where the
/// text holds no `sep`.
pub open spec fn split_once(s: Seq<u8>, sep: u8) -> Option<(Seq<u8>, Seq<u8>)> {
    let at: int = find(s, sep) as int;
    if at >= s.len() {
        None
    } else {
        Some((s.take(at), s.skip(at + 1)))
    }
}

/// Parts `s` at its first `sep`.
pub fn split_once_bytes(s: &[u8], sep: u8) -> (r: Option<(&[u8], &[u8])>)
    ensures
        match r {
            Some((before, after)) => split_once(s@, sep) == Some((before@, after@)),
            None => split_once(s@, sep) is None,
        },
{
    let at: usize = find_from(s, 0, sep);
    proof {
        assert(s@.skip(0) =~= s@);
    }
    if at >= s.len() {
        None
    } else {
        let before = slice_subrange(s, 0, at);
        let after = slice_subrange(s, at + 1, s.len());
        proof {
            assert(before@ =~= s@.take(at as int));
            assert(after@ =~= s@.skip(at + 1));
        }
        Some((before, after))
    }
}

/// The text up to its first blank: the whole text where it holds none.
pub open spec fn first_token(s: Seq<u8>) -> Seq<u8> {
    s.take(find(s, SPACE) as int)
}

/// The part of `s` before its first blank.
pub fn first_token_of(s: &[u8]) -> (r: &[u8])
    ensures
        r@ == first_token(s@),
{
    let at: usize = find_from(s, 0, SPACE);
    proof {
        assert(s@.skip(0) =~= s@);
    }
    let r = slice_subrange(s, 0, at);
    proof {
        assert(r@ =~= s@.take(at as int));
    }
    r
}

} // verus!
