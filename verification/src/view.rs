use vstd::prelude::*;

use crate::Location;
use crate::buffer::{Buffer, EditId, loc_le, loc_lt, loc_offset, valid_loc};
use crate::hilite::{
    HiState, SpanStyle, SyntaxPick, ThemePick, hl_spans, spans_bytes, spans_view,
};
use crate::rope::rope_lines;
use crate::text::{agree_below, line_body, splice, visible_lines};
use vstd::string::StringSliceAdditionalSpecFns;
use vstd::utf8::encode_utf8;

verus! {

/// One cache entry: the highlighting states as they stand just before the
/// line of `at`.
pub struct CacheEntry {
    pub at: Location,
    pub state: HiState,
}

/// The canonical history after consuming `n` lines of `s` under one theme.
pub open spec fn canon_hist(theme: Seq<char>, s: Seq<u8>, n: nat) -> Seq<(Seq<char>, Seq<u8>)> {
    Seq::new(n, |i: int| (theme, line_body(s, i as nat)))
}

/// The spans that line `i` of `s` renders to, processed from the document
/// start under one theme and syntax.
pub open spec fn line_spans(theme: Seq<char>, syntax: Seq<char>, s: Seq<u8>, i: nat) -> Seq<
    (SpanStyle, Seq<char>),
> {
    hl_spans(syntax, canon_hist(theme, s, i), theme, line_body(s, i))
}

/// How many styled lines `style_lines(start, end)` returns.
pub open spec fn styled_len(s: Seq<u8>, start: u64, end: u64) -> nat {
    let e: nat = if end <= visible_lines(s) {
        end as nat
    } else {
        visible_lines(s)
    };
    if start < e {
        (e - start) as nat
    } else {
        0
    }
}

/// What the line iterator of the rope handed over: one string per visible
/// line, holding exactly that line's bytes.
pub open spec fn rope_lines_ok(lines: Seq<String>, s: Seq<u8>) -> bool {
    &&& lines.len() == visible_lines(s)
    &&& forall|i: int|
        0 <= i < lines.len() ==> encode_utf8(#[trigger] lines[i]@) == line_body(s, i as nat)
}

/// Entries stand in strictly ascending position order.
pub open spec fn cache_sorted(c: Seq<CacheEntry>) -> bool {
    forall|i: int| 0 <= i < c.len() - 1 ==> loc_lt((#[trigger] c[i]).at, c[i + 1].at)
}

/// Sortedness reaches across any distance.
pub proof fn lemma_cache_sorted(c: Seq<CacheEntry>, i: int, j: int)
    requires
        cache_sorted(c),
        0 <= i < j < c.len(),
    ensures
        loc_lt(c[i].at, c[j].at),
    decreases j - i,
{
    if i + 1 < j {
        lemma_cache_sorted(c, i + 1, j);
    }
}

/// A buffer together with its rendering state: the baseline states for the
/// document start and the cache of per-line states.
pub struct BufferView {
    pub buffer: Buffer,
    pub baseline: HiState,
    pub cache: Vec<CacheEntry>,
}

impl BufferView {
    /// The name of the theme this view renders with.
    pub open spec fn theme(self) -> Seq<char> {
        self.baseline.theme_name@
    }

    /// The name of the syntax definition this view renders with.
    pub open spec fn syntax(self) -> Seq<char> {
        self.baseline.syntax_name@
    }

    /// The current text of the owned buffer.
    pub open spec fn text(self) -> Seq<u8> {
        self.buffer.text()
    }

    /// The entry's states are exactly those reached after consuming the
    /// lines before its line of the text `s`.
    pub open spec fn entry_valid(self, e: CacheEntry, s: Seq<u8>) -> bool {
        &&& e.state.theme_name@ == self.theme()
        &&& e.state.syntax_name@ == self.syntax()
        &&& e.state.consumed@ == canon_hist(self.theme(), s, e.at.0 as nat)
    }

    /// Shape invariant: a sound buffer, a baseline with nothing consumed,
    /// and a strictly sorted cache of column-zero positions that fit the
    /// machine.
    pub open spec fn wf_shape(self) -> bool {
        &&& self.buffer.wf()
        &&& self.baseline.consumed@ == Seq::<(Seq<char>, Seq<u8>)>::empty()
        &&& cache_sorted(self.cache@)
        &&& forall|i: int|
            0 <= i < self.cache@.len() ==> (#[trigger] self.cache@[i]).at.1 == 0
                && self.cache@[i].at.0 <= usize::MAX
    }

    /// Full invariant: the shape, and every entry valid for the current
    /// text.
    pub open spec fn wf(self) -> bool {
        &&& self.wf_shape()
        &&& forall|i: int|
            0 <= i < self.cache@.len() ==> self.entry_valid(
                #[trigger] self.cache@[i],
                self.text(),
            )
    }

    /// A view over the given buffer, rendering with the given syntax and
    /// theme, with an empty cache.
    pub fn new(buffer: Buffer, syntax: SyntaxPick, theme: ThemePick) -> (v: BufferView)
        requires
            buffer.wf(),
        ensures
            v.wf(),
            v.buffer == buffer,
            v.theme() == theme.name@,
            v.syntax() == syntax.name@,
            v.cache@.len() == 0,
    {
        BufferView { buffer, baseline: HiState::new(theme, syntax), cache: Vec::new() }
    }

    /// Read access to the owned buffer.
    pub fn buffer(&self) -> (r: &Buffer)
        ensures
            *r == self.buffer,
    {
        &self.buffer
    }

    /// Takes the view apart into an editing handle with exclusive access to
    /// the buffer; `BufferHandle::drop` reconciles the cache and gives the
    /// view back.
    pub fn buffer_mut(self) -> (h: BufferHandle)
        requires
            self.wf(),
        ensures
            h.wf(),
            h.view == self,
            h.low is None,
            h.starting_id == self.buffer.last_edit_id,
    {
        let id = self.buffer.current_id();
        BufferHandle { view: self, starting_id: id, low: None }
    }

    /// Renders the lines `[start, end)` of the current text: for each one,
    /// the styled spans whose concatenation is that line.  The result is a
    /// function of the text, the theme and the syntax alone; the cache only
    /// decides where processing resumes.  The states reached just before
    /// `start` are remembered in the cache, so a later call with the same
    /// `start` resumes there.
    #[verifier::rlimit(100)]
    #[verifier::spinoff_prover]
    #[verifier::loop_isolation(false)]
    pub fn style_lines(&mut self, start: u64, end: u64) -> (r: Vec<Vec<(SpanStyle, String)>>)
        requires
            old(self).wf(),
        ensures
            final(self).wf(),
            final(self).buffer == old(self).buffer,
            final(self).baseline == old(self).baseline,
            r@.len() == styled_len(old(self).text(), start, end),
            forall|k: int|
                0 <= k < r@.len() ==> spans_view((#[trigger] r@[k])@) == line_spans(
                    old(self).theme(),
                    old(self).syntax(),
                    old(self).text(),
                    (start + k) as nat,
                ),
            forall|k: int|
                0 <= k < r@.len() ==> spans_bytes(spans_view((#[trigger] r@[k])@)) == line_body(
                    old(self).text(),
                    (start + k) as nat,
                ),
            start <= visible_lines(old(self).text()) ==> exists|i: int|
                0 <= i < final(self).cache@.len() && (#[trigger] final(self).cache@[i]).at
                    == Location(start, 0),
    {
        let ghost th = self.theme();
        let ghost sy = self.syntax();
        let ghost txt = self.text();
        let ne = self.buffer.edits.len();
        let lines = rope_lines(&self.buffer.edits[ne - 1].text);
        let n = lines.len();
        proof {
            assert(rope_lines_ok(lines@, txt));
        }
        // how many entries stand at or before (start, 0)
        let target = Location(start, 0);
        let clen = self.cache.len();
        let mut p: usize = 0;
        let mut j: usize = 0;
        while j < clen
            invariant
                *self == *old(self),
                clen == self.cache@.len(),
                j <= clen,
                p <= j,
                forall|k: int|
                    0 <= k < j ==> (loc_le((#[trigger] self.cache@[k]).at, target) <==> k < p),
            decreases clen - j,
        {
            if self.cache[j].at.le(&target) {
                proof {
                    if p < j {
                        lemma_cache_sorted(self.cache@, p as int, j as int);
                    }
                }
                p = j + 1;
            }
            j += 1;
        }
        // resume line
        let i0: u64 = if p == 0 {
            0
        } else {
            self.cache[p - 1].at.0
        };
        if i0 > n as u64 {
            // the resume state lies past the last line: nothing is rendered
            proof {
                assert(loc_le(self.cache@[p as int - 1].at, target));
                assert(start >= i0);
                assert(styled_len(txt, start, end) == 0);
            }
            return Vec::new();
        }
        let mut hi = if p == 0 {
            self.baseline.duplicate()
        } else {
            self.cache[p - 1].state.duplicate()
        };
        let mut i: usize = i0 as usize;
        proof {
            if p > 0 {
                assert(loc_le(self.cache@[p as int - 1].at, target));
            }
            assert(i0 <= start);
            assert(canon_hist(th, txt, 0) =~= Seq::<(Seq<char>, Seq<u8>)>::empty());
            assert(hi.consumed@ == canon_hist(th, txt, i as nat));
        }
        let start_c: usize = if start > n as u64 {
            n
        } else {
            start as usize
        };
        while i < start_c
            invariant
                *self == *old(self),
                th == self.theme(),
                sy == self.syntax(),
                txt == self.text(),
                i <= start_c,
                start_c <= n,
                n == lines@.len(),
                rope_lines_ok(lines@, txt),
                hi.theme_name@ == th,
                hi.syntax_name@ == sy,
                hi.consumed@ == canon_hist(th, txt, i as nat),
            decreases start_c - i,
        {
            hi.advanced_line(lines[i].as_str());
            proof {
                assert(encode_utf8(lines@[i as int]@) == line_body(txt, i as nat));
                assert(canon_hist(th, txt, (i + 1) as nat) =~= canon_hist(th, txt, i as nat).push(
                    (th, line_body(txt, i as nat)),
                ));
            }
            i += 1;
        }
        // remember the state preceding `start`, unless it is already there
        let ghost mut witness: int = 0;
        if start <= n as u64 {
            let already = p > 0 && i0 == start;
            proof {
                if already {
                    witness = p as int - 1;
                    assert(self.cache@[p as int - 1].at == Location(start, 0));
                } else {
                    witness = p as int;
                }
            }
            if !already {
                let e = CacheEntry { at: Location(start, 0), state: hi.duplicate() };
                let ghost before = self.cache@;
                self.cache.insert(p, e);
                proof {
                    assert forall|k: int|
                        0 <= k < self.cache@.len() - 1 implies loc_lt(
                        (#[trigger] self.cache@[k]).at,
                        self.cache@[k + 1].at,
                    ) by {
                        if k + 1 < p {
                            assert(self.cache@[k] == before[k]);
                            assert(self.cache@[k + 1] == before[k + 1]);
                        } else if k + 1 == p {
                            assert(self.cache@[k] == before[k]);
                            assert(loc_le(before[k].at, target));
                            if p > 0 && k < p - 1 {
                                lemma_cache_sorted(before, k, p as int - 1);
                            }
                        } else if k == p {
                            assert(self.cache@[k + 1] == before[k]);
                            assert(!loc_le(before[k].at, target));
                        } else {
                            assert(self.cache@[k] == before[k - 1]);
                            assert(self.cache@[k + 1] == before[k]);
                        }
                    }
                    assert forall|k: int|
                        0 <= k < self.cache@.len() implies self.entry_valid(
                        #[trigger] self.cache@[k],
                        txt,
                    ) && self.cache@[k].at.1 == 0 && self.cache@[k].at.0 <= usize::MAX by {
                        if k < p {
                            assert(self.cache@[k] == before[k]);
                        } else if k > p {
                            assert(self.cache@[k] == before[k - 1]);
                        }
                    }
                }
            }
        }
        // collect the requested lines
        let end_c: usize = if end > n as u64 {
            n
        } else {
            end as usize
        };
        let ghost base = i as int;
        let mut out: Vec<Vec<(SpanStyle, String)>> = Vec::new();
        while i < end_c
            invariant
                self.buffer == old(self).buffer,
                self.baseline == old(self).baseline,
                self.wf(),
                th == self.theme(),
                sy == self.syntax(),
                txt == self.text(),
                base <= i,
                i <= (if end_c >= base { end_c as int } else { base }),
                n == lines@.len(),
                end_c <= n,
                rope_lines_ok(lines@, txt),
                hi.theme_name@ == th,
                hi.syntax_name@ == sy,
                hi.consumed@ == canon_hist(th, txt, i as nat),
                out@.len() == i - base,
                forall|k: int|
                    0 <= k < out@.len() ==> spans_view((#[trigger] out@[k])@) == line_spans(
                        th,
                        sy,
                        txt,
                        (base + k) as nat,
                    ),
                forall|k: int|
                    0 <= k < out@.len() ==> spans_bytes(spans_view((#[trigger] out@[k])@))
                        == line_body(txt, (base + k) as nat),
            decreases end_c - i,
        {
            let spans = hi.highlight_and_advance_line(lines[i].as_str());
            proof {
                assert(encode_utf8(lines@[i as int]@) == line_body(txt, i as nat));
                assert(canon_hist(th, txt, (i + 1) as nat) =~= canon_hist(th, txt, i as nat).push(
                    (th, line_body(txt, i as nat)),
                ));
            }
            out.push(spans);
            i += 1;
        }
        proof {
            assert(out@.len() == styled_len(txt, start, end));
            if start <= visible_lines(txt) {
                assert(0 <= witness < self.cache@.len());
                assert(self.cache@[witness].at == Location(start, 0));
            }
        }
        out
    }

    /// Drops every cache entry at or after the given location; entries
    /// strictly before it are kept.
    pub fn invalidate_line(&mut self, invalid_loc: Location)
        requires
            old(self).wf_shape(),
        ensures
            final(self).wf_shape(),
            final(self).buffer == old(self).buffer,
            final(self).baseline == old(self).baseline,
            final(self).cache@.len() <= old(self).cache@.len(),
            forall|i: int|
                0 <= i < final(self).cache@.len() ==> final(self).cache@[i] == old(
                    self,
                ).cache@[i] && loc_lt((#[trigger] final(self).cache@[i]).at, invalid_loc),
            forall|i: int|
                final(self).cache@.len() <= i < old(self).cache@.len() ==> loc_le(
                    invalid_loc,
                    (#[trigger] old(self).cache@[i]).at,
                ),
    {
        let len = self.cache.len();
        let mut t: usize = len;
        let mut j: usize = 0;
        while j < len
            invariant
                *self == *old(self),
                len == self.cache@.len(),
                j <= len,
                t <= len,
                t == len ==> forall|k: int|
                    0 <= k < j ==> loc_lt((#[trigger] self.cache@[k]).at, invalid_loc),
                t < len ==> t < j && loc_le(invalid_loc, self.cache@[t as int].at) && forall|
                    k: int,
                |
                    0 <= k < t ==> loc_lt((#[trigger] self.cache@[k]).at, invalid_loc),
            decreases len - j,
        {
            if t == len && !self.cache[j].at.lt(&invalid_loc) {
                t = j;
            }
            j += 1;
        }
        let ghost before = self.cache@;
        self.cache.truncate(t);
        proof {
            assert forall|i: int| t <= i < before.len() implies loc_le(
                invalid_loc,
                (#[trigger] before[i]).at,
            ) by {
                if t < before.len() && t < i {
                    lemma_cache_sorted(before, t as int, i);
                }
            }
        }
    }
}

/// The lowest position affected by a log record whose id is newer than
/// `since`, or nothing when no such record exists.
pub open spec fn low_after(recs: Seq<crate::buffer::EditRecord>, since: u64) -> Option<Location>
    decreases recs.len(),
{
    if recs.len() == 0 {
        None
    } else {
        let rest = low_after(recs.drop_last(), since);
        if recs.last().id.0 > since {
            match rest {
                None => Some(recs.last().affected),
                Some(m) => if loc_le(m, recs.last().affected) {
                    Some(m)
                } else {
                    Some(recs.last().affected)
                },
            }
        } else {
            rest
        }
    }
}

impl BufferView {
    /// Finds the lowest location affected by any log record newer than
    /// `since_id` and drops the cache from it on, once; with no such record
    /// the cache stays whole.  This reconciles the cache after a batch of
    /// plain edits; `BufferHandle` extends the same computation to undo and
    /// redo through its running mark.
    #[verifier::loop_isolation(false)]
    pub fn invalidate_from_edit(&mut self, since_id: EditId)
        requires
            old(self).wf_shape(),
        ensures
            final(self).wf_shape(),
            final(self).buffer == old(self).buffer,
            final(self).baseline == old(self).baseline,
            low_after(old(self).buffer.edits@, since_id.0) is None ==> final(self).cache@ == old(
                self,
            ).cache@,
            low_after(old(self).buffer.edits@, since_id.0) matches Some(l) ==> {
                &&& final(self).cache@.len() <= old(self).cache@.len()
                &&& forall|i: int|
                    0 <= i < final(self).cache@.len() ==> final(self).cache@[i] == old(
                        self,
                    ).cache@[i] && loc_lt((#[trigger] final(self).cache@[i]).at, l)
            },
    {
        let n = self.buffer.edits.len();
        let mut low: Option<Location> = None;
        let mut i: usize = 0;
        while i < n
            invariant
                i <= n,
                low == low_after(self.buffer.edits@.subrange(0, i as int), since_id.0),
            decreases n - i,
        {
            let rec_id = self.buffer.edits[i].id;
            let rec_affected = self.buffer.edits[i].affected;
            if rec_id.0 > since_id.0 {
                low = match low {
                    None => Some(rec_affected),
                    Some(m) => if m.le(&rec_affected) {
                        Some(m)
                    } else {
                        Some(rec_affected)
                    },
                };
            }
            proof {
                let pre = self.buffer.edits@.subrange(0, i as int);
                let cur = self.buffer.edits@.subrange(0, i + 1);
                assert(cur.drop_last() =~= pre);
                assert(cur.last() == self.buffer.edits@[i as int]);
            }
            i += 1;
        }
        proof {
            assert(self.buffer.edits@.subrange(0, n as int) =~= self.buffer.edits@);
        }
        match low {
            None => {},
            Some(l) => {
                self.invalidate_line(l);
            },
        }
    }
}

/// `a` lies below the running low-water mark (no mark means everything
/// does).
pub open spec fn below(a: Location, low: Option<Location>) -> bool {
    low is None || loc_lt(a, low.unwrap())
}

/// Exclusive edit access to a view's buffer.  Every mutation goes through
/// the handle, which keeps the lowest location any of them affected;
/// `drop` discards the stale cache suffix exactly once, however many edits
/// the scope made, and returns the view.
pub struct BufferHandle {
    pub view: BufferView,
    /// The newest edit id when the handle was taken.
    pub starting_id: EditId,
    /// The lowest location affected by the edits, undos and redos so far.
    pub low: Option<Location>,
}

/// The smaller of the running mark and a new location.
fn merge_low(low: Option<Location>, l: Location) -> (r: Option<Location>)
    ensures
        r is Some,
        loc_le(r.unwrap(), l),
        low is Some ==> loc_le(r.unwrap(), low.unwrap()),
{
    match low {
        None => Some(l),
        Some(m) => if m.le(&l) {
            Some(m)
        } else {
            Some(l)
        },
    }
}

impl BufferHandle {
    /// During the scope the cache may lag behind the text, but only at or
    /// after the low-water mark: entries below it still describe the
    /// current text.
    pub open spec fn wf(self) -> bool {
        &&& self.view.wf_shape()
        &&& self.view.buffer.last_edit_id.0 >= self.starting_id.0
        &&& forall|i: int|
            0 <= i < self.view.cache@.len() ==> (below(
                (#[trigger] self.view.cache@[i]).at,
                self.low,
            ) ==> self.view.entry_valid(self.view.cache@[i], self.view.text()))
    }

    /// Read access to the buffer under edit.
    pub fn buffer(&self) -> (r: &Buffer)
        ensures
            *r == self.view.buffer,
    {
        &self.view.buffer
    }

    /// Validity survives a text change that leaves all lines below the mark
    /// alone.
    proof fn lemma_step(self, new: BufferHandle, l: Location)
        requires
            self.wf(),
            new.view.cache@ == self.view.cache@,
            new.view.baseline == self.view.baseline,
            new.view.buffer.wf(),
            new.view.buffer.last_edit_id.0 >= new.starting_id.0,
            agree_below(self.view.text(), new.view.text(), l.0 as nat),
            new.low is Some,
            loc_le(new.low.unwrap(), l),
            self.low is Some ==> loc_le(new.low.unwrap(), self.low.unwrap()),
        ensures
            new.wf(),
    {
        assert forall|i: int|
            0 <= i < new.view.cache@.len() && below(
                (#[trigger] new.view.cache@[i]).at,
                new.low,
            ) implies new.view.entry_valid(new.view.cache@[i], new.view.text()) by {
            let e = self.view.cache@[i];
            assert(below(e.at, self.low));
            assert(self.view.entry_valid(e, self.view.text()));
            assert(loc_lt(e.at, l));
            assert(e.at.1 == 0);
            assert(e.at.0 <= l.0);
            assert(canon_hist(self.view.theme(), self.view.text(), e.at.0 as nat)
                =~= canon_hist(self.view.theme(), new.view.text(), e.at.0 as nat));
        }
    }

    /// Insert through the handle; the mark drops to the insertion point.
    pub fn insert(&mut self, loc: Location, text: &str)
        requires
            old(self).wf(),
            valid_loc(old(self).view.text(), loc),
            old(self).view.buffer.last_edit_id.0 < u64::MAX,
            old(self).view.text().len() + text.spec_bytes().len() <= usize::MAX,
        ensures
            final(self).wf(),
            final(self).view.baseline == old(self).view.baseline,
            final(self).starting_id == old(self).starting_id,
            final(self).view.text() == splice(
                old(self).view.text(),
                loc_offset(old(self).view.text(), loc),
                loc_offset(old(self).view.text(), loc),
                text.spec_bytes(),
            ),
            final(self).view.buffer.last_edit_id.0 == old(self).view.buffer.last_edit_id.0 + 1,
            agree_below(old(self).view.text(), final(self).view.text(), loc.0 as nat),
            visible_lines(final(self).view.text()) >= loc.0,
            visible_lines(old(self).view.text()) >= loc.0,
    {
        let ghost before = *self;
        self.low = merge_low(self.low, loc);
        self.view.buffer.insert(loc, text);
        proof {
            before.lemma_step(*self, loc);
        }
    }

    /// Delete through the handle; the mark drops to the deletion start.
    pub fn delete(&mut self, start: Location, end: Location)
        requires
            old(self).wf(),
            valid_loc(old(self).view.text(), start),
            valid_loc(old(self).view.text(), end),
            loc_lt(start, end),
            old(self).view.buffer.last_edit_id.0 < u64::MAX,
        ensures
            final(self).wf(),
            final(self).view.baseline == old(self).view.baseline,
            final(self).starting_id == old(self).starting_id,
            final(self).view.text() == splice(
                old(self).view.text(),
                loc_offset(old(self).view.text(), start),
                loc_offset(old(self).view.text(), end),
                Seq::<u8>::empty(),
            ),
            final(self).view.buffer.last_edit_id.0 == old(self).view.buffer.last_edit_id.0 + 1,
            agree_below(old(self).view.text(), final(self).view.text(), start.0 as nat),
    {
        let ghost before = *self;
        self.low = merge_low(self.low, start);
        self.view.buffer.delete(start, end);
        proof {
            before.lemma_step(*self, start);
        }
    }

    /// Undo through the handle; when a record is undone, the mark drops to
    /// the position it had affected.
    pub fn undo(&mut self) -> (r: bool)
        requires
            old(self).wf(),
        ensures
            final(self).wf(),
            final(self).view.baseline == old(self).view.baseline,
            final(self).starting_id == old(self).starting_id,
            r == (old(self).view.buffer.edits@.len() > 1),
            !r ==> final(self).view == old(self).view,
            r ==> final(self).view.buffer.edits@ == old(self).view.buffer.edits@.drop_last()
                && final(self).view.buffer.redo@ == old(self).view.buffer.redo@.push(
                old(self).view.buffer.edits@.last(),
            ),
    {
        let n = self.view.buffer.edits.len();
        if n <= 1 {
            let r = self.view.buffer.undo();
            return r;
        }
        let aff = self.view.buffer.edits[n - 1].affected;
        let ghost before = *self;
        self.low = merge_low(self.low, aff);
        let r = self.view.buffer.undo();
        proof {
            before.lemma_step(*self, aff);
        }
        r
    }

    /// Redo through the handle; when a record is restored, the mark drops
    /// to the position it affects.
    pub fn redo(&mut self) -> (r: bool)
        requires
            old(self).wf(),
        ensures
            final(self).wf(),
            final(self).view.baseline == old(self).view.baseline,
            final(self).starting_id == old(self).starting_id,
            r == (old(self).view.buffer.redo@.len() > 0),
            !r ==> final(self).view == old(self).view,
            r ==> final(self).view.buffer.edits@ == old(self).view.buffer.edits@.push(
                old(self).view.buffer.redo@.last(),
            ) && final(self).view.buffer.redo@ == old(self).view.buffer.redo@.drop_last(),
    {
        let m = self.view.buffer.redo.len();
        if m == 0 {
            let r = self.view.buffer.redo();
            return r;
        }
        let aff = self.view.buffer.redo[m - 1].affected;
        let ghost before = *self;
        self.low = merge_low(self.low, aff);
        let r = self.view.buffer.redo();
        proof {
            before.lemma_step(*self, aff);
        }
        r
    }

    /// Releases the handle: the cache suffix at or after the lowest
    /// location any edit of the scope affected is discarded, once, and the
    /// reconciled view is returned.  A scope that changed nothing keeps the
    /// whole cache.
    pub fn drop(self) -> (v: BufferView)
        requires
            self.wf(),
        ensures
            v.wf(),
            v.buffer == self.view.buffer,
            v.baseline == self.view.baseline,
            forall|i: int|
                0 <= i < v.cache@.len() ==> v.cache@[i] == self.view.cache@[i],
    {
        let low = self.low;
        let mut v = self.view;
        match low {
            None => { },
            Some(l) => {
                v.invalidate_line(l);
            },
        }
        v
    }
}

/// Cache transparency: the rendering of a line is a function of the text,
/// the theme and the syntax alone, so two views over the same text render
/// every range identically, whatever their caches hold.
pub proof fn lemma_cache_transparency(v1: BufferView, v2: BufferView, start: u64, end: u64)
    requires
        v1.wf(),
        v2.wf(),
        v1.text() == v2.text(),
        v1.theme() == v2.theme(),
        v1.syntax() == v2.syntax(),
    ensures
        styled_len(v1.text(), start, end) == styled_len(v2.text(), start, end),
        forall|k: nat|
            k < styled_len(v1.text(), start, end) ==> #[trigger] line_spans(
                v1.theme(),
                v1.syntax(),
                v1.text(),
                (start + k) as nat,
            ) == line_spans(v2.theme(), v2.syntax(), v2.text(), (start + k) as nat),
{
}

/// Invalidation locality: after a change that leaves all lines below `l`
/// alone, every line below `l` still renders to the same spans.
pub proof fn lemma_invalidation_locality(
    s1: Seq<u8>,
    s2: Seq<u8>,
    th: Seq<char>,
    sy: Seq<char>,
    l: nat,
    i: nat,
)
    requires
        agree_below(s1, s2, l),
        i < l,
    ensures
        line_spans(th, sy, s1, i) == line_spans(th, sy, s2, i),
{
    assert(canon_hist(th, s1, i) =~= canon_hist(th, s2, i));
}

} // verus!
