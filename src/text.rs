use vstd::prelude::*;
use vstd::std_specs::iter::IteratorSpec;

verus! {

/// The characters of `s`, in order.
pub fn chars_of(s: &str) -> (r: Vec<char>)
    ensures
        r@ == s@,
{
    let mut out: Vec<char> = Vec::new();
    for c in it: s.chars()
        invariant
            it.seq() == s@,
            out@ == it.seq().take(it.index() as int),
    {
        out.push(c);
    }
    out
}

} // verus!

verus! {

/// The pieces of `s` between line feeds, in order: one more piece than there are line
/// feeds, so a text that ends in a line feed ends in an empty piece.
pub open spec fn segments(s: Seq<char>) -> Seq<Seq<char>>
    decreases s.len(),
{
    if s.len() == 0 {
        seq![Seq::empty()]
    } else {
        let p = segments(s.drop_last());
        if s.last() == '\n' {
            p.push(Seq::empty())
        } else {
            p.update(p.len() - 1, p.last().push(s.last()))
        }
    }
}

/// A line that ended in a line feed loses the carriage return before it, if any.
pub open spec fn strip_cr(l: Seq<char>) -> Seq<char> {
    if l.len() > 0 && l.last() == '\r' {
        l.drop_last()
    } else {
        l
    }
}

/// The lines of a text: each line feed ends a line (and a carriage return just before
/// it is dropped); the text after the last line feed is a line of its own unless empty.
pub open spec fn lines_of(s: Seq<char>) -> Seq<Seq<char>> {
    let segs = segments(s);
    let ended = segs.drop_last().map_values(|l: Seq<char>| strip_cr(l));
    if segs.last().len() == 0 {
        ended
    } else {
        ended.push(segs.last())
    }
}

/// The items of a list written with `", "` between them, in order: one more item than
/// there are separators, so an empty text is one empty item.
pub open spec fn items(s: Seq<char>) -> Seq<Seq<char>>
    decreases s.len(),
{
    if s.len() == 0 {
        seq![Seq::empty()]
    } else if s.len() >= 2 && s[s.len() - 2] == ',' && s[s.len() - 1] == ' ' {
        items(s.subrange(0, s.len() - 2)).push(Seq::empty())
    } else {
        let p = items(s.drop_last());
        p.update(p.len() - 1, p.last().push(s.last()))
    }
}

/// Where a range of positions of `chars` stands, as the text it covers.
pub open spec fn span(chars: Seq<char>, r: (usize, usize)) -> Seq<char> {
    chars.subrange(r.0 as int, r.1 as int)
}

/// Whether `r` is a well-formed range of positions within a text of length `len`.
pub open spec fn in_bounds(r: (usize, usize), len: nat) -> bool {
    r.0 <= r.1 <= len
}

/// The position ranges of the lines of `chars`, as `lines_of` describes them.
pub fn line_spans(chars: &Vec<char>) -> (r: Vec<(usize, usize)>)
    ensures
        r@.len() == lines_of(chars@).len(),
        forall|k: int|
            0 <= k < r@.len() ==> in_bounds(#[trigger] r@[k], chars@.len()) && span(chars@, r@[k])
                == lines_of(chars@)[k],
{
    let mut done: Vec<(usize, usize)> = Vec::new();
    let mut start: usize = 0;
    let mut i: usize = 0;
    while i < chars.len()
        invariant
            start <= i <= chars@.len(),
            done@.len() + 1 == segments(chars@.take(i as int)).len(),
            forall|k: int|
                0 <= k < done@.len() ==> in_bounds(#[trigger] done@[k], chars@.len()) && span(
                    chars@,
                    done@[k],
                ) == strip_cr(segments(chars@.take(i as int))[k]),
            segments(chars@.take(i as int)).last() == chars@.subrange(start as int, i as int),
        decreases chars@.len() - i,
    {
        assert(chars@.take(i + 1).drop_last() =~= chars@.take(i as int));
        if chars[i] == '\n' {
            let mut end: usize = i;
            if end > start && chars[end - 1] == '\r' {
                end = end - 1;
            }
            assert(span(chars@, (start, end)) =~= strip_cr(chars@.subrange(start as int, i as int)));
            done.push((start, end));
            start = i + 1;
        } else {
            assert(chars@.subrange(start as int, i + 1) =~= chars@.subrange(start as int, i as int).push(chars@[i as int]));
        }
        i = i + 1;
        assert(chars@.subrange(start as int, i as int) =~= segments(chars@.take(i as int)).last());
    }
    assert(chars@.take(i as int) =~= chars@);
    if start < chars.len() {
        done.push((start, chars.len()));
    }
    assert(done@.len() == lines_of(chars@).len());
    done
}

} // verus!

verus! {

/// The position ranges of the `", "`-separated items of `chars[lo..hi]`, as `items`
/// describes them.
pub fn item_spans(chars: &Vec<char>, lo: usize, hi: usize) -> (r: Vec<(usize, usize)>)
    requires
        lo <= hi <= chars@.len(),
    ensures
        r@.len() == items(chars@.subrange(lo as int, hi as int)).len(),
        forall|k: int|
            0 <= k < r@.len() ==> in_bounds(#[trigger] r@[k], chars@.len()) && span(chars@, r@[k])
                == items(chars@.subrange(lo as int, hi as int))[k],
{
    let mut done: Vec<(usize, usize)> = Vec::new();
    let mut start: usize = lo;
    let mut i: usize = lo;
    while i < hi
        invariant
            lo <= start <= i <= hi <= chars@.len(),
            done@.len() + 1 == items(chars@.subrange(lo as int, i as int)).len(),
            forall|k: int|
                0 <= k < done@.len() ==> in_bounds(#[trigger] done@[k], chars@.len()) && span(
                    chars@,
                    done@[k],
                ) == items(chars@.subrange(lo as int, i as int))[k],
            items(chars@.subrange(lo as int, i as int)).last() == chars@.subrange(
                start as int,
                i as int,
            ),
            !(lo < i < hi && chars@[i - 1] == ',' && chars@[i as int] == ' '),
        decreases hi - i,
    {
        if chars[i] == ',' && i + 1 < hi && chars[i + 1] == ' ' {
            assert(chars@.subrange(lo as int, i + 2).subrange(0, i - lo) =~= chars@.subrange(
                lo as int,
                i as int,
            ));
            done.push((start, i));
            i = i + 2;
            start = i;
        } else {
            assert(chars@.subrange(lo as int, i + 1).drop_last() =~= chars@.subrange(
                lo as int,
                i as int,
            ));
            assert(chars@.subrange(start as int, i + 1) =~= chars@.subrange(
                start as int,
                i as int,
            ).push(chars@[i as int]));
            i = i + 1;
        }
        assert(chars@.subrange(start as int, i as int) =~= items(
            chars@.subrange(lo as int, i as int),
        ).last());
    }
    done.push((start, hi));
    done
}

} // verus!
