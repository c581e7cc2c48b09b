//! Per-block metadata: the line-mark map and the block mark, together with
//! the downward hole search over the line marks.

use vstd::prelude::*;

use crate::constants::{BLOCK_CAPACITY, FREE_MARK, LINE_COUNT, LINE_SIZE};
use crate::size_class::SizeClass;

verus! {

/// Every line in `[lo, hi)` carries the FREE mark.
pub open spec fn lines_free(lines: Seq<u8>, lo: int, hi: int) -> bool {
    forall|i: int| lo <= i < hi ==> lines[i] == FREE_MARK
}

/// Lines needed to hold `size` bytes (`size >= 1`).
pub open spec fn lines_needed(size: int) -> int {
    (size - 1) / (LINE_SIZE as int) + 1
}

/// The pair of line indices `(end, lim)` bounds a hole that the downward
/// search from line `start` may report for a request of `req` lines:
/// the lines `[lim, end)` are FREE and number at least `req`; the run is
/// maximal at its top (`end` is `start` itself or a marked line); and the
/// conservative-marking rule holds at the bottom — either the run reaches
/// line 0, or the line two below `lim` is marked and the line directly
/// below `lim` is a FREE line given up to absorb boundary overruns.
pub open spec fn hole_found(lines: Seq<u8>, start: int, end: int, lim: int, req: int) -> bool {
    &&& 0 <= lim < end <= start
    &&& end - lim >= req
    &&& lines_free(lines, lim, end)
    &&& end == start || lines[end] != FREE_MARK
    &&& lim > 0 ==> lim >= 2 && lines[lim - 2] != FREE_MARK && lines[lim - 1] == FREE_MARK
}

/// No hole at all qualifies for `alloc_size` bytes below byte offset
/// `starting_at`.
pub open spec fn no_hole(lines: Seq<u8>, starting_at: int, alloc_size: int) -> bool {
    forall|e: int, l: int|
        !(#[trigger] hole_found(lines, starting_at / (LINE_SIZE as int), e, l, lines_needed(
            alloc_size,
        )))
}

/// The byte pair `(cursor, limit)` is a hole that the search from byte
/// offset `starting_at` reports for `alloc_size` bytes, and no qualifying
/// hole sits higher in the block.
pub open spec fn hole_result(
    lines: Seq<u8>,
    starting_at: int,
    alloc_size: int,
    cursor: int,
    limit: int,
) -> bool {
    let start = starting_at / (LINE_SIZE as int);
    let req = lines_needed(alloc_size);
    let end = cursor / (LINE_SIZE as int);
    let lim = limit / (LINE_SIZE as int);
    &&& cursor == end * (LINE_SIZE as int)
    &&& limit == lim * (LINE_SIZE as int)
    &&& hole_found(lines, start, end, lim, req)
    &&& forall|e: int, l: int| hole_found(lines, start, e, l, req) ==> e <= end
}

/// Rounding a positive size up to whole lines covers it.
pub proof fn lemma_lines_needed_bound(size: int)
    requires
        size >= 1,
    ensures
        lines_needed(size) >= 1,
        lines_needed(size) * (LINE_SIZE as int) >= size,
{
    let ls = LINE_SIZE as int;
    let q = (size - 1) / ls;
    let r = (size - 1) % ls;
    vstd::arithmetic::div_mod::lemma_fundamental_div_mod(size - 1, ls);
    vstd::arithmetic::div_mod::lemma_mod_bound(size - 1, ls);
    assert(size - 1 == ls * q + r);
    assert(q >= 0) by {
        vstd::arithmetic::div_mod::lemma_div_pos_is_pos(size - 1, ls);
    }
    assert((q + 1) * ls == ls * q + ls) by (nonlinear_arith);
    assert((q + 1) * ls >= size);
}

/// First line covered by an object at byte offset `offset`.
pub open spec fn mark_first(offset: int) -> int {
    offset / (LINE_SIZE as int)
}

/// Last line whose mark an object at `offset` of `size` bytes receives: for
/// a small object only the starting line is marked (the conservative rule
/// at sweep absorbs a spill into the next line); a medium object marks
/// every line it covers.
pub open spec fn mark_last(offset: int, size: int, size_class: SizeClass) -> int {
    if size_class == SizeClass::Small {
        mark_first(offset)
    } else {
        (offset + size - 1) / (LINE_SIZE as int)
    }
}

/// Line-mark map and block mark of one block.  The block mark records the
/// current generation of the most recent object marked in the block;
/// `FREE_MARK` means no live object.
pub struct BlockMeta {
    pub lines: Vec<u8>,
    pub block_mark: u8,
}

impl BlockMeta {
    pub open spec fn wf(self) -> bool {
        self.lines.len() == LINE_COUNT
    }

    /// A fresh map: block FREE and every line FREE.
    pub fn new() -> (r: BlockMeta)
        ensures
            r.wf(),
            r.block_mark == FREE_MARK,
            lines_free(r.lines@, 0, LINE_COUNT as int),
    {
        let mut lines: Vec<u8> = Vec::new();
        let mut i: usize = 0;
        while i < LINE_COUNT
            invariant
                i <= LINE_COUNT,
                lines.len() == i,
                lines_free(lines@, 0, i as int),
            decreases LINE_COUNT - i,
        {
            lines.push(FREE_MARK);
            i += 1;
        }
        BlockMeta { lines, block_mark: FREE_MARK }
    }

    pub fn get_line(&self, index: usize) -> (r: u8)
        requires
            self.wf(),
            index < LINE_COUNT,
        ensures
            r == self.lines@[index as int],
    {
        self.lines[index]
    }

    pub fn set_line(&mut self, index: usize, mark_value: u8)
        requires
            old(self).wf(),
            index < LINE_COUNT,
        ensures
            final(self).wf(),
            final(self).lines@ == old(self).lines@.update(index as int, mark_value),
            final(self).block_mark == old(self).block_mark,
    {
        self.lines.set(index, mark_value);
    }

    pub fn get_block_mark(&self) -> (r: u8)
        ensures
            r == self.block_mark,
    {
        self.block_mark
    }

    pub fn mark_block(&mut self, mark_value: u8)
        requires
            mark_value != FREE_MARK,
        ensures
            final(self).wf() == old(self).wf(),
            final(self).block_mark == mark_value,
            final(self).lines@ == old(self).lines@,
    {
        self.block_mark = mark_value;
    }

    /// Return the whole map to the fresh state.
    pub fn reset(&mut self)
        requires
            old(self).wf(),
        ensures
            final(self).wf(),
            final(self).block_mark == FREE_MARK,
            lines_free(final(self).lines@, 0, LINE_COUNT as int),
    {
        self.block_mark = FREE_MARK;
        let mut i: usize = 0;
        while i < LINE_COUNT
            invariant
                i <= LINE_COUNT,
                self.wf(),
                self.block_mark == FREE_MARK,
                lines_free(self.lines@, 0, i as int),
            decreases LINE_COUNT - i,
        {
            self.lines.set(i, FREE_MARK);
            i += 1;
        }
    }

    /// Clear every mark that does not carry the current generation: a line
    /// or block mark survives a sweep exactly when it equals `mark_value`.
    pub fn free_unmarked(&mut self, mark_value: u8)
        requires
            old(self).wf(),
            mark_value != FREE_MARK,
        ensures
            final(self).wf(),
            final(self).block_mark == (if old(self).block_mark == mark_value {
                mark_value
            } else {
                FREE_MARK
            }),
            forall|i: int|
                0 <= i < LINE_COUNT ==> final(self).lines@[i] == (if old(self).lines@[i]
                    == mark_value {
                    mark_value
                } else {
                    FREE_MARK
                }),
    {
        if self.block_mark != mark_value {
            self.block_mark = FREE_MARK;
        }
        let ghost mark_after = self.block_mark;
        let mut i: usize = 0;
        while i < LINE_COUNT
            invariant
                i <= LINE_COUNT,
                self.wf(),
                self.block_mark == mark_after,
                mark_value != FREE_MARK,
                forall|j: int|
                    0 <= j < i ==> self.lines@[j] == (if old(self).lines@[j] == mark_value {
                        mark_value
                    } else {
                        FREE_MARK
                    }),
                forall|j: int| i <= j < LINE_COUNT ==> self.lines@[j] == old(self).lines@[j],
            decreases LINE_COUNT - i,
        {
            if self.lines[i] != mark_value {
                self.lines.set(i, FREE_MARK);
            }
            i += 1;
        }
    }

    /// Set the marks covering an object of `size` bytes placed at byte
    /// offset `offset` in the block's payload: the starting line for a
    /// small object, every covered line for a medium one, and the block
    /// mark in either case.
    pub fn mark(&mut self, offset: usize, size: usize, size_class: SizeClass, mark_value: u8)
        requires
            old(self).wf(),
            mark_value != FREE_MARK,
            size >= 1,
            offset + size <= BLOCK_CAPACITY,
            size_class != SizeClass::Large,
        ensures
            final(self).wf(),
            final(self).block_mark == mark_value,
            forall|i: int|
                0 <= i < LINE_COUNT ==> final(self).lines@[i] == (if mark_first(offset as int) <= i
                    <= mark_last(offset as int, size as int, size_class) {
                    mark_value
                } else {
                    old(self).lines@[i]
                }),
    {
        let first: usize = offset / LINE_SIZE;
        let last: usize = if matches!(size_class, SizeClass::Small) {
            first
        } else {
            (offset + size - 1) / LINE_SIZE
        };
        proof {
            assert(last < LINE_COUNT && first <= last) by {
                vstd::arithmetic::div_mod::lemma_div_is_ordered(
                    offset as int + size - 1,
                    BLOCK_CAPACITY as int - 1,
                    LINE_SIZE as int,
                );
                vstd::arithmetic::div_mod::lemma_div_is_ordered(
                    offset as int,
                    offset as int + size - 1,
                    LINE_SIZE as int,
                );
            }
        }
        let mut i: usize = first;
        while i <= last
            invariant
                self.wf(),
                first <= i <= last + 1,
                last < LINE_COUNT,
                self.block_mark == old(self).block_mark,
                forall|j: int|
                    0 <= j < LINE_COUNT ==> self.lines@[j] == (if first <= j < i {
                        mark_value
                    } else {
                        old(self).lines@[j]
                    }),
            decreases last + 1 - i,
        {
            self.lines.set(i, mark_value);
            i += 1;
        }
        self.block_mark = mark_value;
    }

    /// Search downward from byte offset `starting_at` for the highest hole
    /// that fits `alloc_size` bytes under the conservative-marking rule,
    /// returning its byte bounds `(cursor, limit)`, or `None` when no hole
    /// in the block qualifies.
    pub fn find_next_available_hole(&self, starting_at: usize, alloc_size: usize) -> (r: Option<
        (usize, usize),
    >)
        requires
            self.wf(),
            1 <= alloc_size,
            starting_at <= BLOCK_CAPACITY,
        ensures
            r matches Some(pair) ==> {
                &&& hole_result(
                    self.lines@,
                    starting_at as int,
                    alloc_size as int,
                    pair.0 as int,
                    pair.1 as int,
                )
                &&& pair.1 < pair.0 <= starting_at
                &&& pair.0 - pair.1 >= alloc_size
            },
            r is None ==> no_hole(self.lines@, starting_at as int, alloc_size as int),
    {
        let ghost all = self.lines@;
        let starting_line: usize = starting_at / LINE_SIZE;
        let lines_required: usize = (alloc_size - 1) / LINE_SIZE + 1;
        proof {
            assert(starting_line <= 253) by {
                vstd::arithmetic::div_mod::lemma_div_is_ordered(
                    starting_at as int,
                    BLOCK_CAPACITY as int,
                    LINE_SIZE as int,
                );
            }
            assert(lines_required >= 1) by {
                vstd::arithmetic::div_mod::lemma_div_pos_is_pos(
                    alloc_size as int - 1,
                    LINE_SIZE as int,
                );
            }
            assert(starting_line * LINE_SIZE <= starting_at) by {
                vstd::arithmetic::div_mod::lemma_fundamental_div_mod(
                    starting_at as int,
                    LINE_SIZE as int,
                );
                vstd::arithmetic::div_mod::lemma_mod_bound(starting_at as int, LINE_SIZE as int);
            }
        }
        let ghost req = lines_required as int;
        let mut count: usize = 0;
        let mut end: usize = starting_line;
        let mut index: usize = starting_line;
        while index > 0
            invariant
                self.wf(),
                all == self.lines@,
                req == lines_required as int,
                req == lines_needed(alloc_size as int),
                req >= 1,
                1 <= alloc_size,
                starting_line <= 253,
                starting_line == starting_at as int / (LINE_SIZE as int),
                starting_line * LINE_SIZE <= starting_at,
                index <= end <= starting_line,
                count == end - index,
                lines_free(all, index as int, end as int),
                end == starting_line || all[end as int] != FREE_MARK,
                index == 0 ==> end == 0 || (end as int) < req,
                forall|e: int, l: int|
                    hole_found(all, starting_line as int, e, l, req) ==> e <= end && (e
                        == end as int ==> l <= index as int + 1),
            decreases index,
        {
            index = index - 1;
            let line_mark = self.get_line(index);
            if line_mark == FREE_MARK {
                count = count + 1;
                if index == 0 && count >= lines_required {
                    let cursor: usize = end * LINE_SIZE;
                    let limit: usize = 0;
                    proof {
                        assert(lines_free(all, 0, end as int));
                        assert(hole_found(all, starting_line as int, end as int, 0, req));
                        assert(cursor as int / (LINE_SIZE as int) == end as int) by {
                            vstd::arithmetic::div_mod::lemma_div_by_multiple(
                                end as int,
                                LINE_SIZE as int,
                            );
                        }
                        assert(limit as int / (LINE_SIZE as int) == 0) by {
                            vstd::arithmetic::div_mod::lemma_div_of0(LINE_SIZE as int);
                        }
                        assert(cursor - limit >= alloc_size) by {
                            lemma_lines_needed_bound(alloc_size as int);
                            assert(end as int * (LINE_SIZE as int) >= req * (LINE_SIZE as int))
                                by (nonlinear_arith)
                                requires
                                    end as int >= req,
                                    LINE_SIZE as int > 0,
                            ;
                        }
                        assert(cursor <= starting_at) by {
                            assert(end as int * (LINE_SIZE as int) <= starting_line as int * (
                            LINE_SIZE as int)) by (nonlinear_arith)
                                requires
                                    end as int <= starting_line as int,
                                    LINE_SIZE as int > 0,
                            ;
                        }
                    }
                    return Some((cursor, limit));
                }
                proof {
                    assert forall|e: int, l: int|
                        hole_found(all, starting_line as int, e, l, req) implies e <= end as int
                        && (e == end as int ==> l <= index as int + 1) by {
                        if e == end as int && l == index as int + 2 {
                            assert(all[l - 2] != FREE_MARK);
                            assert(all[index as int] == FREE_MARK);
                            assert(false);
                        }
                    }
                }
            } else {
                if count > lines_required {
                    let cursor: usize = end * LINE_SIZE;
                    let limit: usize = (index + 2) * LINE_SIZE;
                    proof {
                        assert(all[index as int + 1] == FREE_MARK);
                        assert(hole_found(
                            all,
                            starting_line as int,
                            end as int,
                            index as int + 2,
                            req,
                        ));
                        assert(cursor as int / (LINE_SIZE as int) == end as int) by {
                            vstd::arithmetic::div_mod::lemma_div_by_multiple(
                                end as int,
                                LINE_SIZE as int,
                            );
                        }
                        assert(limit as int / (LINE_SIZE as int) == index as int + 2) by {
                            vstd::arithmetic::div_mod::lemma_div_by_multiple(
                                index as int + 2,
                                LINE_SIZE as int,
                            );
                        }
                        assert(cursor - limit >= alloc_size) by {
                            lemma_lines_needed_bound(alloc_size as int);
                            assert(end as int * (LINE_SIZE as int) - (index as int + 2) * (
                            LINE_SIZE as int) >= req * (LINE_SIZE as int)) by (nonlinear_arith)
                                requires
                                    end as int - index as int - 2 >= req,
                                    LINE_SIZE as int > 0,
                            ;
                        }
                        assert(cursor <= starting_at) by {
                            assert(end as int * (LINE_SIZE as int) <= starting_line as int * (
                            LINE_SIZE as int)) by (nonlinear_arith)
                                requires
                                    end as int <= starting_line as int,
                                    LINE_SIZE as int > 0,
                            ;
                        }
                    }
                    return Some((cursor, limit));
                }
                let ghost old_end = end as int;
                let ghost old_count = count as int;
                count = 0;
                end = index;
                proof {
                    assert forall|e: int, l: int|
                        hole_found(all, starting_line as int, e, l, req) implies e <= end as int
                        && (e == end as int ==> l <= index as int + 1) by {
                        if e > index as int {
                            if e < old_end {
                                assert(all[e] == FREE_MARK);
                                assert(e != starting_line as int);
                                assert(false);
                            } else {
                                assert(e == old_end);
                                assert(l <= index as int + 2);
                                if l <= index as int {
                                    assert(all[index as int] == FREE_MARK);
                                    assert(false);
                                } else if l == index as int + 1 {
                                    assert(l >= 2 && all[l - 1] == FREE_MARK);
                                    assert(false);
                                } else {
                                    assert(l == index as int + 2);
                                    assert(e - l >= req);
                                    assert(old_count == old_end - index - 1);
                                    assert(old_count <= req);
                                    assert(false);
                                }
                            }
                        }
                    }
                }
            }
        }
        proof {
            assert forall|e: int, l: int|
                !hole_found(all, starting_line as int, e, l, req) by {
                if hole_found(all, starting_line as int, e, l, req) {
                    assert(e <= end as int);
                    if e < end as int {
                        assert(all[e] == FREE_MARK);
                        assert(e != starting_line as int);
                        assert(false);
                    } else {
                        assert(l <= 1);
                        assert(l == 0);
                        assert(e - l >= req);
                        assert(end == 0 || (end as int) < req);
                        assert(false);
                    }
                }
            }
        }
        None
    }
}

} // verus!
