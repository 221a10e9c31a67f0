//! Splitting the raw output of a pty into lines.

use vstd::prelude::*;
use crate::sgr::{find_byte, index_of, lemma_index_of_append, lemma_index_of_bound};
use crate::text::{decode_lossy, strip_trailing_cr, utf8_lossy, without_trailing_cr};
use vstd::utf8::{decode_utf8, valid_utf8};

verus! {

/// The lines of `b` that a newline ends, without their newlines.
pub open spec fn complete_lines(b: Seq<u8>) -> Seq<Seq<u8>>
    decreases b.len(),
{
    let k = index_of(b, 0x0A);
    if k < b.len() {
        seq![b.take(k as int)] + complete_lines(b.skip(k + 1 as int))
    } else {
        Seq::empty()
    }
}

/// What follows the last newline of `b` (all of `b` when it has none).
pub open spec fn unfinished(b: Seq<u8>) -> Seq<u8>
    decreases b.len(),
{
    let k = index_of(b, 0x0A);
    if k < b.len() {
        unfinished(b.skip(k + 1 as int))
    } else {
        b
    }
}

/// The text of a line of raw pty output: its bytes decoded, invalid UTF-8
/// replaced, and its trailing carriage returns removed.
pub open spec fn pty_line_text(raw: Seq<u8>) -> Seq<char> {
    strip_trailing_cr(utf8_lossy(raw))
}

pub open spec fn texts_of(lines: Seq<Seq<u8>>) -> Seq<Seq<char>> {
    lines.map_values(|l: Seq<u8>| pty_line_text(l))
}

/// Appends `data` to the bytes held back in `remainder`, takes out every
/// line that a newline completes, and leaves the unfinished rest in
/// `remainder` for the next call. A line that is valid UTF-8 comes out as
/// its decoded text without trailing carriage returns.
pub fn extract_lines(remainder: &mut Vec<u8>, data: &[u8]) -> (r: Vec<String>)
    ensures
        r@.map_values(|s: String| s@) == texts_of(complete_lines(old(remainder)@ + data@)),
        forall|i: int|
            0 <= i < r@.len() && valid_utf8(#[trigger] complete_lines(old(remainder)@ + data@)[i])
                ==> r@[i]@ == strip_trailing_cr(
                decode_utf8(complete_lines(old(remainder)@ + data@)[i]),
            ),
        final(remainder)@ == unfinished(old(remainder)@ + data@),
{
    let ghost all = old(remainder)@ + data@;
    let mut i: usize = 0;
    while i < data.len()
        invariant
            i <= data@.len(),
            remainder@ == old(remainder)@ + data@.take(i as int),
        decreases data@.len() - i,
    {
        remainder.push(data[i]);
        i += 1;
        assert(remainder@ =~= old(remainder)@ + data@.take(i as int));
    }
    assert(data@.take(i as int) =~= data@);
    let len = remainder.len();
    let mut lines: Vec<String> = Vec::new();
    let mut start: usize = 0;
    let ghost mut done: Seq<Seq<u8>> = Seq::empty();
    assert(remainder@.subrange(0, len as int) =~= all);
    assert(done + complete_lines(all) =~= complete_lines(all));
    loop
        invariant
            start <= len == remainder@.len(),
            remainder@ == all,
            all == old(remainder)@ + data@,
            lines@.map_values(|s: String| s@) + texts_of(
                complete_lines(all.subrange(start as int, len as int)),
            ) == texts_of(complete_lines(all)),
            unfinished(all.subrange(start as int, len as int)) == unfinished(all),
            done.len() == lines@.len(),
            done + complete_lines(all.subrange(start as int, len as int)) == complete_lines(all),
            forall|j: int|
                0 <= j < done.len() && valid_utf8(#[trigger] done[j]) ==> lines@[j]@
                    == strip_trailing_cr(decode_utf8(done[j])),
        decreases len - start,
    {
        let ghost rest = all.subrange(start as int, len as int);
        let k = find_byte(remainder.as_slice(), start, len, 0x0A);
        proof {
            lemma_index_of_bound(rest, 0x0A);
        }
        if k < len {
            let seg = vstd::slice::slice_subrange(remainder.as_slice(), start, k);
            let text = decode_lossy(seg);
            let line = without_trailing_cr(text.as_str());
            let ghost old_lines = lines@.map_values(|s: String| s@);
            lines.push(line);
            proof {
                assert(seg@ =~= rest.take(k - start));
                assert(rest.skip(k - start + 1) =~= all.subrange(k + 1, len as int));
                let tail = complete_lines(all.subrange(k + 1, len as int));
                assert(complete_lines(rest) == seq![rest.take(k - start)] + tail);
                assert(texts_of(seq![rest.take(k - start)] + tail) =~= seq![line@] + texts_of(tail));
                assert(lines@.map_values(|s: String| s@) =~= old_lines.push(line@));
                assert(lines@.map_values(|s: String| s@) + texts_of(tail) =~= old_lines + (seq![
                    line@,
                ] + texts_of(tail)));
                let ghost old_done = done;
                done = done.push(seg@);
                assert(done + tail =~= old_done + (seq![rest.take(k - start)] + tail));
            }
            start = k + 1;
        } else {
            proof {
                assert(complete_lines(rest) =~= Seq::<Seq<u8>>::empty());
                assert(texts_of(complete_lines(rest)) =~= Seq::<Seq<char>>::empty());
                assert(lines@.map_values(|s: String| s@) =~= texts_of(complete_lines(all)));
                assert(unfinished(rest) == rest);
                assert(done =~= complete_lines(all));
            }
            let mut tail: Vec<u8> = Vec::new();
            let mut j = start;
            while j < len
                invariant
                    start <= j <= len == remainder@.len(),
                    tail@ == remainder@.subrange(start as int, j as int),
                decreases len - j,
            {
                tail.push(remainder[j]);
                j += 1;
                assert(tail@ =~= remainder@.subrange(start as int, j as int));
            }
            *remainder = tail;
            return lines;
        }
    }
}


/// Output split over two calls gives the same lines, and leaves the same
/// unfinished rest, as the same output in one call: the lines that `x`
/// completes, then those that its unfinished rest followed by `y`
/// completes, are the lines of `x + y`.
pub proof fn law_lines_do_not_depend_on_chunking(x: Seq<u8>, y: Seq<u8>)
    ensures
        complete_lines(x) + complete_lines(unfinished(x) + y) == complete_lines(x + y),
        unfinished(unfinished(x) + y) == unfinished(x + y),
    decreases x.len(),
{
    lemma_index_of_bound(x, 0x0A);
    let k = index_of(x, 0x0A);
    if k < x.len() {
        assert forall|i: int| 0 <= i < x.take(k as int).len() implies x.take(k as int)[i] != 0x0A by {
        }
        assert(x =~= x.take(k as int) + x.skip(k as int));
        assert(x + y =~= x.take(k as int) + (x.skip(k as int) + y));
        lemma_index_of_append(x.take(k as int), x.skip(k as int) + y, 0x0A);
        lemma_index_of_append(x.take(k as int), x.skip(k as int), 0x0A);
        assert(index_of(x.skip(k as int) + y, 0x0A) == 0);
        assert(index_of(x.skip(k as int), 0x0A) == 0);
        assert(index_of(x + y, 0x0A) == k);
        assert((x + y).take(k as int) =~= x.take(k as int));
        assert((x + y).skip(k + 1 as int) =~= x.skip(k + 1 as int) + y);
        law_lines_do_not_depend_on_chunking(x.skip(k + 1 as int), y);
        assert(complete_lines(x) + complete_lines(unfinished(x) + y) =~= complete_lines(x + y));
    } else {
        assert forall|i: int| 0 <= i < x.len() implies x[i] != 0x0A by {}
        lemma_index_of_append(x, y, 0x0A);
        assert(complete_lines(x) =~= Seq::<Seq<u8>>::empty());
        assert(complete_lines(x) + complete_lines(unfinished(x) + y) =~= complete_lines(x + y));
    }
}

} // verus!
