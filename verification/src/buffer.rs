use vstd::prelude::*;

use crate::Location;
use crate::rope::{
    TextRope, rope_bytes, rope_clone, rope_edit, rope_from_str, rope_offset_of_line,
    rope_to_string,
};
use crate::text::{
    agree_below, boundary, lemma_line_extent, lemma_line_start, lemma_line_start_mono, line_count,
    line_end, line_start, nl_from, splice, visible_lines,
};
use vstd::string::StringSliceAdditionalSpecFns;
use vstd::utf8::encode_utf8;

verus! {

/// A buffer-scoped identifier that totally orders the edits ever made.
#[derive(Clone, Copy, PartialEq, Eq, Structural, Debug)]
pub struct EditId(pub u64);

/// `a` comes no later than `b` in the (line, column) order.
pub open spec fn loc_le(a: Location, b: Location) -> bool {
    a.0 < b.0 || (a.0 == b.0 && a.1 <= b.1)
}

/// `a` comes strictly before `b` in the (line, column) order.
pub open spec fn loc_lt(a: Location, b: Location) -> bool {
    a.0 < b.0 || (a.0 == b.0 && a.1 < b.1)
}

impl Location {
    /// Compare two locations, line first, then column.
    pub fn le(&self, other: &Location) -> (r: bool)
        ensures
            r == loc_le(*self, *other),
    {
        self.0 < other.0 || (self.0 == other.0 && self.1 <= other.1)
    }

    /// Strict form of the same order.
    pub fn lt(&self, other: &Location) -> (r: bool)
        ensures
            r == loc_lt(*self, *other),
    {
        self.0 < other.0 || (self.0 == other.0 && self.1 < other.1)
    }
}

/// Byte offset of a location: where its line starts, plus its column.
pub open spec fn loc_offset(s: Seq<u8>, loc: Location) -> int {
    line_start(s, loc.0 as nat) + loc.1
}

/// The location denotes an existing position of the text: its line exists,
/// its column stays within that line, and its offset falls on a character
/// boundary.
pub open spec fn valid_loc(s: Seq<u8>, loc: Location) -> bool {
    &&& (loc.0 as nat) < line_count(s)
    &&& loc.1 <= line_end(s, loc.0 as nat) - line_start(s, loc.0 as nat)
    &&& boundary(s, loc_offset(s, loc))
}

/// One committed edit: its id, the lowest position it touched, and the whole
/// text as it stood after the edit.
pub struct EditRecord {
    pub id: EditId,
    pub affected: Location,
    pub text: TextRope,
}

impl EditRecord {
    /// The snapshot's bytes.
    pub open spec fn bytes(self) -> Seq<u8> {
        rope_bytes(self.text)
    }
}

/// The edit log (oldest to newest) and the redo stack of a document.
pub struct Buffer {
    /// The id of the most recently created edit record.
    pub last_edit_id: EditId,
    /// Committed edits; the last one holds the current text.
    pub edits: Vec<EditRecord>,
    /// Records removed by `undo`, most recently undone on top.
    pub redo: Vec<EditRecord>,
}

impl Buffer {
    /// The full history: the log followed by the redo stack read bottom-up.
    pub open spec fn recs(self) -> Seq<EditRecord> {
        self.edits@ + self.redo@.reverse()
    }

    /// The current text: the newest committed snapshot.
    pub open spec fn text(self) -> Seq<u8> {
        self.edits@.last().bytes()
    }

    /// The buffer's invariant: a non-empty log; ids strictly increasing along
    /// the history, the newest created id last; every snapshot sized for the
    /// machine; and each record's snapshot agreeing with its predecessor's on
    /// all lines below the position the edit touched.
    pub open spec fn wf(self) -> bool {
        &&& self.edits@.len() >= 1
        &&& forall|i: int|
            0 <= i < self.recs().len() - 1 ==> (#[trigger] self.recs()[i].id).0 < self.recs()[i
                + 1].id.0
        &&& self.last_edit_id == self.recs().last().id
        &&& forall|i: int| 0 <= i < self.recs().len() ==> (#[trigger] self.recs()[i]).bytes().len()
            <= usize::MAX
        &&& forall|i: int|
            1 <= i < self.recs().len() ==> agree_below(
                self.recs()[i - 1].bytes(),
                (#[trigger] self.recs()[i]).bytes(),
                self.recs()[i].affected.0 as nat,
            )
    }

    /// Ids grow along the whole history, not only between neighbours.
    pub proof fn lemma_ids_increase(self, i: int, j: int)
        requires
            self.wf(),
            0 <= i < j < self.recs().len(),
        ensures
            self.recs()[i].id.0 < self.recs()[j].id.0,
        decreases j - i,
    {
        if i + 1 < j {
            self.lemma_ids_increase(i + 1, j);
        }
    }

    /// A buffer seeded with the given text: one record with id 0 at the
    /// document start, nothing to redo.
    pub fn new(s: &str) -> (b: Buffer)
        ensures
            b.wf(),
            b.edits@.len() == 1,
            b.redo@.len() == 0,
            b.edits@[0].id == EditId(0),
            b.edits@[0].affected == Location(0, 0),
            b.text() == s.spec_bytes(),
            b.last_edit_id == EditId(0),
    {
        let rec = EditRecord { id: EditId(0), affected: Location(0, 0), text: rope_from_str(s) };
        let mut edits: Vec<EditRecord> = Vec::new();
        edits.push(rec);
        let b = Buffer { last_edit_id: EditId(0), edits, redo: Vec::new() };
        proof {
            assert(b.recs() =~= b.edits@);
        }
        b
    }

    /// A buffer seeded with the empty text.
    pub fn empty() -> (b: Buffer)
        ensures
            b.wf(),
            b.edits@.len() == 1,
            b.redo@.len() == 0,
            b.text() == Seq::<u8>::empty(),
            b.last_edit_id == EditId(0),
    {
        let b = Buffer::new("");
        proof {
            reveal_strlit("");
            assert(b.text() =~= Seq::<u8>::empty());
        }
        b
    }

    /// The id of the most recently created edit record.
    pub fn current_id(&self) -> (r: EditId)
        ensures
            r == self.last_edit_id,
    {
        self.last_edit_id
    }

    /// The current text as one string.
    pub fn current_text(&self) -> (r: String)
        requires
            self.wf(),
        ensures
            encode_utf8(r@) == self.text(),
    {
        let n = self.edits.len();
        rope_to_string(&self.edits[n - 1].text)
    }

    /// Byte offset of a valid location in the current text.
    #[verifier::rlimit(30)]
    fn byte_at(&self, loc: Location) -> (res: usize)
        requires
            self.wf(),
            valid_loc(self.text(), loc),
        ensures
            res == loc_offset(self.text(), loc),
            res <= self.text().len(),
    {
        let n = self.edits.len();
        proof {
            assert(self.recs()[n - 1] == self.edits@.last());
            assert(self.text().len() <= usize::MAX);
            crate::text::lemma_nl_le(self.text(), 0);
            lemma_line_extent(self.text(), loc.0 as nat);
        }
        let off = rope_offset_of_line(&self.edits[n - 1].text, loc.0 as usize);
        off + loc.1 as usize
    }

    /// Splice `ins` into the current snapshot at `[start_off, end_off)` and
    /// commit the outcome as a fresh record touching `affected`.
    #[verifier::rlimit(100)]
    #[verifier::spinoff_prover]
    fn commit(&mut self, start_off: usize, end_off: usize, ins: &str, affected: Location)
        requires
            old(self).wf(),
            start_off <= end_off <= old(self).text().len(),
            boundary(old(self).text(), start_off as int),
            boundary(old(self).text(), end_off as int),
            old(self).last_edit_id.0 < u64::MAX,
            old(self).text().len() - (end_off - start_off) + ins.spec_bytes().len() <= usize::MAX,
            (affected.0 as nat) < line_count(old(self).text()),
            line_start(old(self).text(), affected.0 as nat) <= start_off,
        ensures
            final(self).wf(),
            final(self).edits@.len() == old(self).edits@.len() + 1,
            final(self).edits@.drop_last() == old(self).edits@,
            final(self).redo@.len() == 0,
            final(self).last_edit_id == EditId((old(self).last_edit_id.0 + 1) as u64),
            final(self).edits@.last().id == final(self).last_edit_id,
            final(self).edits@.last().affected == affected,
            final(self).text() == splice(
                old(self).text(),
                start_off as int,
                end_off as int,
                ins.spec_bytes(),
            ),
            agree_below(old(self).text(), final(self).text(), affected.0 as nat),
            nl_from(final(self).text(), 0) >= affected.0,
            visible_lines(final(self).text()) >= affected.0,
            visible_lines(old(self).text()) >= affected.0,
    {
        let ghost old_text = self.text();
        let n = self.edits.len();
        let mut rope = rope_clone(&self.edits[n - 1].text);
        rope_edit(&mut rope, start_off, end_off, ins);
        let id = EditId(self.last_edit_id.0 + 1);
        let rec = EditRecord { id, affected, text: rope };
        let ghost old_self = *self;
        self.redo.clear();
        self.edits.push(rec);
        self.last_edit_id = id;
        proof {
            let new_text = rope_bytes(rec.text);
            let oe = old_self.edits@;
            assert(rec.bytes().len() == old_text.len() - (end_off - start_off)
                + ins.spec_bytes().len());
            assert(old_text.subrange(0, start_off as int) =~= new_text.subrange(
                0,
                start_off as int,
            ));
            crate::text::lemma_agree_from_prefix(
                old_text,
                new_text,
                start_off as int,
                affected.0 as nat,
            );
            crate::text::lemma_nl_le(old_text, 0);
            assert(self.recs() =~= oe + seq![rec]);
            assert forall|i: int| 0 <= i < oe.len() implies old_self.recs()[i] == oe[i] by {}
            assert forall|i: int| 0 <= i < self.recs().len() - 1 implies (
            #[trigger] self.recs()[i].id).0 < self.recs()[i + 1].id.0 by {
                if i == oe.len() - 1 {
                    old_self.lemma_ids_increase_to_last(i);
                } else {
                    assert(old_self.recs()[i].id.0 < old_self.recs()[i + 1].id.0);
                }
            }
            assert forall|i: int| 0 <= i < self.recs().len() implies (
            #[trigger] self.recs()[i]).bytes().len() <= usize::MAX by {
                if i < oe.len() {
                    assert(old_self.recs()[i].bytes().len() <= usize::MAX);
                }
            }
            assert forall|i: int| 1 <= i < self.recs().len() implies agree_below(
                self.recs()[i - 1].bytes(),
                (#[trigger] self.recs()[i]).bytes(),
                self.recs()[i].affected.0 as nat,
            ) by {
                if i < oe.len() {
                    assert(agree_below(
                        old_self.recs()[i - 1].bytes(),
                        old_self.recs()[i].bytes(),
                        old_self.recs()[i].affected.0 as nat,
                    ));
                } else {
                    assert(self.recs()[i - 1] == oe.last());
                    assert(self.recs()[i] == rec);
                }
            }
            assert(self.edits@.drop_last() =~= oe);
                        assert(self.text() == new_text);
        }
    }

    /// The newest created id is the largest in the history.
    proof fn lemma_ids_increase_to_last(self, i: int)
        requires
            self.wf(),
            0 <= i < self.recs().len(),
        ensures
            self.recs()[i].id.0 <= self.last_edit_id.0,
    {
        if i < self.recs().len() - 1 {
            self.lemma_ids_increase(i, self.recs().len() - 1);
        }
    }

    /// Insert `text` at a valid position of the current snapshot.  A fresh
    /// record is committed, the redo stack is cleared, and lines below the
    /// insertion line are untouched.
    pub fn insert(&mut self, loc: Location, text: &str)
        requires
            old(self).wf(),
            valid_loc(old(self).text(), loc),
            old(self).last_edit_id.0 < u64::MAX,
            old(self).text().len() + text.spec_bytes().len() <= usize::MAX,
        ensures
            final(self).wf(),
            final(self).edits@.len() == old(self).edits@.len() + 1,
            final(self).edits@.drop_last() == old(self).edits@,
            final(self).redo@.len() == 0,
            final(self).last_edit_id == EditId((old(self).last_edit_id.0 + 1) as u64),
            final(self).edits@.last().id == final(self).last_edit_id,
            final(self).edits@.last().affected == loc,
            final(self).text() == splice(
                old(self).text(),
                loc_offset(old(self).text(), loc),
                loc_offset(old(self).text(), loc),
                text.spec_bytes(),
            ),
            agree_below(old(self).text(), final(self).text(), loc.0 as nat),
            visible_lines(final(self).text()) >= loc.0,
            visible_lines(old(self).text()) >= loc.0,
    {
        let off = self.byte_at(loc);
        self.commit(off, off, text, loc);
    }

    /// Delete the byte range between two valid positions, `start` strictly
    /// before `end`.  A fresh record is committed, the redo stack is cleared,
    /// and lines below the deletion start are untouched.
    #[verifier::rlimit(30)]
    pub fn delete(&mut self, start: Location, end: Location)
        requires
            old(self).wf(),
            valid_loc(old(self).text(), start),
            valid_loc(old(self).text(), end),
            loc_lt(start, end),
            old(self).last_edit_id.0 < u64::MAX,
        ensures
            final(self).wf(),
            final(self).edits@.len() == old(self).edits@.len() + 1,
            final(self).edits@.drop_last() == old(self).edits@,
            final(self).redo@.len() == 0,
            final(self).last_edit_id == EditId((old(self).last_edit_id.0 + 1) as u64),
            final(self).edits@.last().id == final(self).last_edit_id,
            final(self).edits@.last().affected == start,
            final(self).text() == splice(
                old(self).text(),
                loc_offset(old(self).text(), start),
                loc_offset(old(self).text(), end),
                Seq::<u8>::empty(),
            ),
            agree_below(old(self).text(), final(self).text(), start.0 as nat),
            visible_lines(final(self).text()) >= start.0,
            visible_lines(old(self).text()) >= start.0,
    {
        proof {
            lemma_loc_offset_lt(old(self).text(), start, end);
        }
        let off_s = self.byte_at(start);
        let off_e = self.byte_at(end);
        proof {
            let n = self.edits@.len() as int;
            assert(self.recs()[n - 1] == self.edits@.last());
            assert(self.text().len() <= usize::MAX);
            reveal_strlit("");
            assert(("")@ =~= Seq::<char>::empty());
            assert(("").spec_bytes() =~= Seq::<u8>::empty());
        }
        self.commit(off_s, off_e, "", start);
    }

    /// Move the newest record onto the redo stack; with only the seed record
    /// left, report `false` and change nothing.
    #[verifier::rlimit(60)]
    #[verifier::spinoff_prover]
    pub fn undo(&mut self) -> (r: bool)
        requires
            old(self).wf(),
        ensures
            final(self).wf(),
            final(self).last_edit_id == old(self).last_edit_id,
            old(self).edits@.len() == 1 ==> r == false && *final(self) == *old(self),
            old(self).edits@.len() > 1 ==> r == true && final(self).edits@ == old(self).edits@.drop_last()
                && final(self).redo@ == old(self).redo@.push(old(self).edits@.last()) && agree_below(
                old(self).text(),
                final(self).text(),
                old(self).edits@.last().affected.0 as nat,
            ),
    {
        if self.edits.len() <= 1 {
            return false;
        }
        let ghost old_self = *self;
        let rec = self.edits.pop().unwrap();
        self.redo.push(rec);
        proof {
            assert(self.recs() =~= old_self.recs());
            let k = self.edits@.len() as int;
            assert(old_self.recs()[k] == rec);
            assert(old_self.recs()[k - 1] == self.edits@.last());
            assert(agree_below(self.text(), rec.bytes(), rec.affected.0 as nat));
        }
        true
    }

    /// Restore the most recently undone record as the newest one; with an
    /// empty redo stack, report `false` and change nothing.
    #[verifier::rlimit(60)]
    #[verifier::spinoff_prover]
    pub fn redo(&mut self) -> (r: bool)
        requires
            old(self).wf(),
        ensures
            final(self).wf(),
            final(self).last_edit_id == old(self).last_edit_id,
            old(self).redo@.len() == 0 ==> r == false && *final(self) == *old(self),
            old(self).redo@.len() > 0 ==> r == true && final(self).edits@ == old(self).edits@.push(
                old(self).redo@.last(),
            ) && final(self).redo@ == old(self).redo@.drop_last() && agree_below(
                old(self).text(),
                final(self).text(),
                old(self).redo@.last().affected.0 as nat,
            ),
    {
        if self.redo.len() == 0 {
            return false;
        }
        let ghost old_self = *self;
        let rec = self.redo.pop().unwrap();
        self.edits.push(rec);
        proof {
            assert(self.recs() =~= old_self.recs());
            let k = old_self.edits@.len() as int;
            assert(old_self.recs()[k] == rec);
            assert(old_self.recs()[k - 1] == old_self.edits@.last());
            assert(agree_below(old_self.text(), rec.bytes(), rec.affected.0 as nat));
        }
        true
    }
}

/// For valid positions the (line, column) order agrees with the byte order.
pub proof fn lemma_loc_offset_lt(s: Seq<u8>, a: Location, b: Location)
    requires
        valid_loc(s, a),
        valid_loc(s, b),
        loc_lt(a, b),
    ensures
        loc_offset(s, a) < loc_offset(s, b),
{
    if a.0 == b.0 {
    } else {
        lemma_line_start(s, a.0 as nat);
        assert(loc_offset(s, a) <= line_end(s, a.0 as nat));
        assert(line_start(s, (a.0 + 1) as nat) == line_end(s, a.0 as nat) + 1);
        if a.0 + 1 < b.0 {
            lemma_line_start_mono(s, (a.0 + 1) as nat, b.0 as nat);
        }
    }
}

/// Undoing the newest record and then redoing it restores the log, the redo
/// stack, and with them the current snapshot and the current edit id.
#[verifier::rlimit(30)]
pub proof fn lemma_undo_redo_round_trip(b1: Buffer, b2: Buffer, b3: Buffer)
    requires
        b1.wf(),
        b1.edits@.len() > 1,
        b2.edits@ == b1.edits@.drop_last(),
        b2.redo@ == b1.redo@.push(b1.edits@.last()),
        b2.last_edit_id == b1.last_edit_id,
        b3.edits@ == b2.edits@.push(b2.redo@.last()),
        b3.redo@ == b2.redo@.drop_last(),
        b3.last_edit_id == b2.last_edit_id,
    ensures
        b3.edits@ == b1.edits@,
        b3.redo@ == b1.redo@,
        b3.text() == b1.text(),
        b3.last_edit_id == b1.last_edit_id,
{
    assert(b3.edits@ =~= b1.edits@);
    assert(b3.redo@ =~= b1.redo@);
}

} // verus!
