//! The mathematics of cutting a byte stream into lines.
//!
//! A stream is read as a left fold over its bytes: a newline closes the line
//! that was being collected, any other byte extends it. `complete_lines` is
//! the sequence of lines closed so far and `partial_line` the bytes collected
//! since the last newline.

use vstd::prelude::*;

verus! {

/// The byte that ends a line.
pub const NEWLINE: u8 = 10u8;

/// No byte of `s` is a newline.
pub open spec fn newline_free(s: Seq<u8>) -> bool {
    forall|i: int| 0 <= i < s.len() ==> s[i] != NEWLINE
}

/// The bytes of `s` that follow its last newline (all of `s` if it has none).
pub open spec fn partial_line(s: Seq<u8>) -> Seq<u8>
    decreases s.len(),
{
    if s.len() == 0 {
        Seq::empty()
    } else if s.last() == NEWLINE {
        Seq::empty()
    } else {
        partial_line(s.drop_last()).push(s.last())
    }
}

/// The newline-terminated lines of `s`, in order, each without its newline.
pub open spec fn complete_lines(s: Seq<u8>) -> Seq<Seq<u8>>
    decreases s.len(),
{
    if s.len() == 0 {
        Seq::empty()
    } else if s.last() == NEWLINE {
        complete_lines(s.drop_last()).push(partial_line(s.drop_last()))
    } else {
        complete_lines(s.drop_last())
    }
}

/// Every line followed by a newline, concatenated.
pub open spec fn join_lines(lines: Seq<Seq<u8>>) -> Seq<u8>
    decreases lines.len(),
{
    if lines.len() == 0 {
        Seq::empty()
    } else {
        join_lines(lines.drop_last()) + lines.last().push(NEWLINE)
    }
}

/// Joining distributes over concatenation of line lists.
pub proof fn lemma_join_concat(a: Seq<Seq<u8>>, b: Seq<Seq<u8>>)
    ensures
        join_lines(a + b) == join_lines(a) + join_lines(b),
    decreases b.len(),
{
    if b.len() == 0 {
        assert(a + b =~= a);
        assert(join_lines(a) + join_lines(b) =~= join_lines(a));
    } else {
        lemma_join_concat(a, b.drop_last());
        assert((a + b).drop_last() =~= a + b.drop_last());
        assert((a + b).last() == b.last());
        assert(join_lines(a + b) =~= join_lines(a) + join_lines(b));
    }
}

/// A sequence without newlines has no complete line and is its own partial
/// line.
pub proof fn lemma_newline_free_is_partial(s: Seq<u8>)
    requires
        newline_free(s),
    ensures
        complete_lines(s) == Seq::<Seq<u8>>::empty(),
        partial_line(s) == s,
    decreases s.len(),
{
    if s.len() > 0 {
        lemma_newline_free_is_partial(s.drop_last());
        assert(partial_line(s) =~= s);
    } else {
        assert(partial_line(s) =~= s);
    }
}

/// Neither a complete line nor the partial line holds a newline.
pub proof fn lemma_lines_are_newline_free(s: Seq<u8>)
    ensures
        newline_free(partial_line(s)),
        forall|k: int| 0 <= k < complete_lines(s).len() ==> newline_free(#[trigger] complete_lines(s)[k]),
    decreases s.len(),
{
    if s.len() > 0 {
        let t = s.drop_last();
        lemma_lines_are_newline_free(t);
        assert forall|k: int| 0 <= k < complete_lines(s).len() implies newline_free(
            #[trigger] complete_lines(s)[k],
        ) by {
            if k < complete_lines(t).len() {
                assert(complete_lines(s)[k] == complete_lines(t)[k]);
            }
        }
    }
}

/// Nothing is lost or invented: the complete lines with their newlines put
/// back, followed by the partial line, are the bytes that were split.
pub proof fn lemma_split_rejoins(s: Seq<u8>)
    ensures
        join_lines(complete_lines(s)) + partial_line(s) == s,
    decreases s.len(),
{
    if s.len() == 0 {
        assert(join_lines(complete_lines(s)) + partial_line(s) =~= s);
    } else {
        let t = s.drop_last();
        lemma_split_rejoins(t);
        if s.last() == NEWLINE {
            assert(complete_lines(s).drop_last() =~= complete_lines(t));
            assert(complete_lines(s).last() == partial_line(t));
            assert(join_lines(complete_lines(s)) + partial_line(s) =~= (join_lines(
                complete_lines(t),
            ) + partial_line(t)).push(NEWLINE));
            assert(t.push(NEWLINE) =~= s);
        } else {
            assert(join_lines(complete_lines(s)) + partial_line(s) =~= (join_lines(
                complete_lines(t),
            ) + partial_line(t)).push(s.last()));
            assert(t.push(s.last()) =~= s);
        }
    }
}

/// Splitting does not depend on where the input was cut: the lines of `a + b`
/// are those of `a`, then those found once the partial line of `a` is
/// continued with `b`.
pub proof fn lemma_split_concat(a: Seq<u8>, b: Seq<u8>)
    ensures
        complete_lines(a + b) == complete_lines(a) + complete_lines(partial_line(a) + b),
        partial_line(a + b) == partial_line(partial_line(a) + b),
    decreases b.len(),
{
    let p = partial_line(a);
    if b.len() == 0 {
        assert(a + b =~= a);
        assert(p + b =~= p);
        lemma_lines_are_newline_free(a);
        lemma_newline_free_is_partial(p);
        assert(complete_lines(a) + complete_lines(p) =~= complete_lines(a));
    } else {
        let c = b.drop_last();
        lemma_split_concat(a, c);
        assert((a + b).drop_last() =~= a + c);
        assert((p + b).drop_last() =~= p + c);
        assert((a + b).last() == b.last());
        assert((p + b).last() == b.last());
        if b.last() == NEWLINE {
            assert(complete_lines(a + b) =~= complete_lines(a) + complete_lines(p + b));
        }
    }
}

} // verus!
