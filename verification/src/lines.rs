//! The lines of a file's bytes. A line ends with a line feed, which does not
//! belong to it; nor does a carriage return that stands right before that line
//! feed. Bytes after the last line feed are a line of their own.

use vstd::prelude::*;

verus! {

/// The line feed, which ends a line.
pub const LF: u8 = 0x0a;

/// The carriage return, which may stand before a line feed.
pub const CR: u8 = 0x0d;

/// The position of the first line feed in `bytes`, or their number where
/// they hold none.
pub open spec fn line_end(bytes: Seq<u8>) -> int
    decreases bytes.len(),
{
    if bytes.len() == 0 || bytes[0] == LF {
        0
    } else {
        1 + line_end(bytes.drop_first())
    }
}

/// `raw` without the carriage return at its end, where it has one.
pub open spec fn without_cr(raw: Seq<u8>) -> Seq<u8> {
    if raw.len() > 0 && raw.last() == CR {
        raw.drop_last()
    } else {
        raw
    }
}

/// The lines of `bytes`, in order, without their terminators.
pub open spec fn split_lines(bytes: Seq<u8>) -> Seq<Seq<u8>>
    decreases bytes.len(),
{
    if bytes.len() == 0 {
        Seq::empty()
    } else {
        let end = line_end(bytes);
        if 0 <= end < bytes.len() {
            seq![without_cr(bytes.subrange(0, end))] + split_lines(
                bytes.subrange(end + 1, bytes.len() as int),
            )
        } else {
            seq![bytes]
        }
    }
}

/// No line feed stands before `line_end`, and one stands at it unless it is
/// the end of the bytes.
pub proof fn lemma_line_end(bytes: Seq<u8>)
    ensures
        0 <= line_end(bytes) <= bytes.len(),
        line_end(bytes) < bytes.len() ==> bytes[line_end(bytes)] == LF,
        forall|j: int| 0 <= j < line_end(bytes) ==> bytes[j] != LF,
    decreases bytes.len(),
{
    if bytes.len() == 0 || bytes[0] == LF {
    } else {
        let rest = bytes.drop_first();
        lemma_line_end(rest);
        assert forall|j: int| 0 <= j < line_end(bytes) implies bytes[j] != LF by {
            if j > 0 {
                assert(rest[j - 1] == bytes[j]);
            }
        }
    }
}

/// `line_end` is the only position of that kind.
pub proof fn lemma_line_end_is(bytes: Seq<u8>, end: int)
    requires
        0 <= end <= bytes.len(),
        forall|j: int| 0 <= j < end ==> bytes[j] != LF,
        end < bytes.len() ==> bytes[end] == LF,
    ensures
        end == line_end(bytes),
{
    lemma_line_end(bytes);
}

/// No line holds a line feed.
pub proof fn lemma_lines_hold_no_line_feed(bytes: Seq<u8>)
    ensures
        forall|i: int, j: int|
            #![trigger split_lines(bytes)[i][j]]
            0 <= i < split_lines(bytes).len() && 0 <= j < split_lines(bytes)[i].len()
                ==> split_lines(bytes)[i][j] != LF,
    decreases bytes.len(),
{
    if bytes.len() > 0 {
        let end = line_end(bytes);
        lemma_line_end(bytes);
        if end < bytes.len() {
            let rest = bytes.subrange(end + 1, bytes.len() as int);
            lemma_lines_hold_no_line_feed(rest);
            assert forall|i: int, j: int|
                0 <= i < split_lines(bytes).len() && 0 <= j < split_lines(bytes)[i].len() implies
                #[trigger] split_lines(bytes)[i][j] != LF by {
                if i > 0 {
                    assert(split_lines(bytes)[i] == split_lines(rest)[i - 1]);
                }
            }
        }
    }
}

/// The line that begins at `start`, if one does: `r.0` is where its text
/// ends and `r.1` where the next line begins, after the terminator. No line
/// begins at the end of the bytes or beyond.
pub fn next_line(content: &[u8], start: usize) -> (r: Option<(usize, usize)>)
    ensures
        r is None <==> start >= content@.len(),
        r matches Some((text_end, next)) ==> {
            &&& start <= text_end <= next <= content@.len()
            &&& start < next
            &&& split_lines(content@.subrange(start as int, content@.len() as int)) == seq![
                content@.subrange(start as int, text_end as int),
            ] + split_lines(content@.subrange(next as int, content@.len() as int))
        },
{
    let len: usize = content.len();
    if start >= len {
        return None;
    }
    let ghost rest = content@.subrange(start as int, len as int);
    let mut end: usize = start;
    while end < len && content[end] != LF
        invariant
            start <= end <= len,
            len == content@.len(),
            forall|j: int| start <= j < end ==> content@[j] != LF,
        decreases len - end,
    {
        end += 1;
    }
    proof {
        assert forall|j: int| 0 <= j < end - start implies rest[j] != LF by {
            assert(rest[j] == content@[start + j]);
        }
        lemma_line_end_is(rest, end - start);
    }
    if end == len {
        proof {
            assert(split_lines(content@.subrange(len as int, len as int)) =~= Seq::empty());
            assert(seq![rest] + Seq::<Seq<u8>>::empty() =~= seq![rest]);
        }
        Some((len, len))
    } else {
        let ghost raw = rest.subrange(0, end - start);
        let text_end: usize = if end > start && content[end - 1] == CR {
            end - 1
        } else {
            end
        };
        proof {
            assert(raw =~= content@.subrange(start as int, end as int));
            assert(without_cr(raw) =~= content@.subrange(start as int, text_end as int));
            assert(rest.subrange(end - start + 1, rest.len() as int) =~= content@.subrange(
                end + 1,
                len as int,
            ));
        }
        Some((text_end, end + 1))
    }
}

} // verus!
