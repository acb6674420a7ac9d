use vstd::prelude::*;

verus! {

// The stored text is modelled as a sequence of bytes; a byte 10 (`\n`) ends a
// line.  Line numbers are zero-based.  These functions define the line
// structure that both the buffer contracts and the rendering contracts use.

/// Number of newline bytes at or after position `from`.
pub open spec fn nl_from(s: Seq<u8>, from: int) -> nat
    decreases s.len() - from when from <= s.len()
{
    if from >= s.len() {
        0
    } else {
        (if s[from] == 10u8 {
            1nat
        } else {
            0nat
        }) + nl_from(s, from + 1)
    }
}

/// Number of newline bytes in `s`.
pub open spec fn newline_count(s: Seq<u8>) -> nat {
    nl_from(s, 0)
}

/// Number of lines of `s` as positions: one more than the newline count, so
/// that the position after a trailing newline counts as a (possibly empty)
/// final line.
pub open spec fn line_count(s: Seq<u8>) -> nat {
    newline_count(s) + 1
}

/// Position of the first newline at or after `from`, or `s.len()` if there is
/// none.
pub open spec fn line_end_from(s: Seq<u8>, from: int) -> int
    decreases s.len() - from when from <= s.len()
{
    if from >= s.len() {
        s.len() as int
    } else if s[from] == 10u8 {
        from
    } else {
        line_end_from(s, from + 1)
    }
}

/// Byte offset at which line `n` begins: 0 for line 0, one past the end of the
/// previous line otherwise.
pub open spec fn line_start(s: Seq<u8>, n: nat) -> int
    decreases n
{
    if n == 0 {
        0
    } else {
        line_end_from(s, line_start(s, (n - 1) as nat)) + 1
    }
}

/// Byte offset just after the last byte of line `n`, its newline excluded.
pub open spec fn line_end(s: Seq<u8>, n: nat) -> int {
    line_end_from(s, line_start(s, n))
}

/// The bytes of line `n`, newline excluded.
pub open spec fn line_raw(s: Seq<u8>, n: nat) -> Seq<u8> {
    s.subrange(line_start(s, n), line_end(s, n))
}

/// The bytes of line `n` as a line iterator yields it: the newline is
/// stripped, and so is a carriage return that stood just before it.
pub open spec fn line_body(s: Seq<u8>, n: nat) -> Seq<u8> {
    let raw = line_raw(s, n);
    if line_end(s, n) < s.len() && raw.len() > 0 && raw.last() == 13u8 {
        raw.drop_last()
    } else {
        raw
    }
}

/// Number of lines a line iterator yields: the empty segment after a trailing
/// newline is not one of them, and an empty text has none.
pub open spec fn visible_lines(s: Seq<u8>) -> nat {
    if s.len() == 0 {
        0
    } else if s.last() == 10u8 {
        newline_count(s)
    } else {
        newline_count(s) + 1
    }
}

/// `s` with the byte range `[start, end)` replaced by `ins`.
pub open spec fn splice(s: Seq<u8>, start: int, end: int, ins: Seq<u8>) -> Seq<u8> {
    s.subrange(0, start) + ins + s.subrange(end, s.len() as int)
}

/// `o` lies on a UTF-8 character boundary of `s` (the end counts as one).
pub open spec fn boundary(s: Seq<u8>, o: int) -> bool {
    o == s.len() || (0 <= o < s.len() && !(128 <= s[o] < 192))
}

/// The two texts have the same line layout up to line `n`: lines before `n`
/// hold the same bytes, and line `n` begins at the same offset.
pub open spec fn agree_below(s1: Seq<u8>, s2: Seq<u8>, n: nat) -> bool {
    &&& forall|k: nat| k <= n ==> line_start(s1, k) == line_start(s2, k)
    &&& forall|k: nat| k < n ==> line_body(s1, k) == line_body(s2, k)
}

/// The first newline search stays within the text and finds a real newline,
/// with none before it.
pub proof fn lemma_line_end_from(s: Seq<u8>, from: int)
    requires
        0 <= from <= s.len(),
    ensures
        from <= line_end_from(s, from) <= s.len(),
        line_end_from(s, from) < s.len() ==> s[line_end_from(s, from)] == 10u8,
        forall|k: int| from <= k < line_end_from(s, from) ==> s[k] != 10u8,
    decreases s.len() - from,
{
    if from < s.len() && s[from] != 10u8 {
        lemma_line_end_from(s, from + 1);
    }
}

/// How one line's scan relates the newline counts on either side of it.
pub proof fn lemma_nl_step(s: Seq<u8>, from: int)
    requires
        0 <= from <= s.len(),
    ensures
        line_end_from(s, from) < s.len() ==> nl_from(s, from) == nl_from(
            s,
            line_end_from(s, from) + 1,
        ) + 1,
        line_end_from(s, from) == s.len() ==> nl_from(s, from) == 0,
    decreases s.len() - from,
{
    if from < s.len() && s[from] != 10u8 {
        lemma_nl_step(s, from + 1);
    }
}

/// Every line up to the line count begins within the text, later lines begin
/// strictly later, and exactly `n` newlines lie before line `n`'s start.
pub proof fn lemma_line_start(s: Seq<u8>, n: nat)
    requires
        n < line_count(s),
    ensures
        0 <= line_start(s, n) <= s.len(),
        nl_from(s, line_start(s, n)) == newline_count(s) - n,
        n > 0 ==> line_start(s, (n - 1) as nat) < line_start(s, n),
    decreases n,
{
    if n > 0 {
        lemma_line_start(s, (n - 1) as nat);
        let p = line_start(s, (n - 1) as nat);
        lemma_line_end_from(s, p);
        lemma_nl_step(s, p);
    }
}

/// Line starts grow strictly with the line number, within the line count.
pub proof fn lemma_line_start_mono(s: Seq<u8>, m: nat, n: nat)
    requires
        m < n,
        n < line_count(s),
    ensures
        line_start(s, m) < line_start(s, n),
    decreases n,
{
    lemma_line_start(s, n);
    if m < n - 1 {
        lemma_line_start_mono(s, m, (n - 1) as nat);
    }
}

/// A valid line's extent lies within the text.
pub proof fn lemma_line_extent(s: Seq<u8>, n: nat)
    requires
        n < line_count(s),
    ensures
        0 <= line_start(s, n) <= line_end(s, n) <= s.len(),
{
    lemma_line_start(s, n);
    lemma_line_end_from(s, line_start(s, n));
}

/// Scanning for a newline gives the same answer in two texts that agree on a
/// prefix covering the scan.
pub proof fn lemma_scan_prefix(s1: Seq<u8>, s2: Seq<u8>, from: int, bound: int)
    requires
        0 <= from <= bound,
        bound <= s1.len(),
        bound <= s2.len(),
        s1.subrange(0, bound) == s2.subrange(0, bound),
    ensures
        line_end_from(s1, from) < bound ==> line_end_from(s2, from) == line_end_from(s1, from),
        line_end_from(s1, from) >= bound ==> line_end_from(s2, from) >= bound,
    decreases bound - from,
{
    assert forall|k: int| 0 <= k < bound implies s1[k] == s2[k] by {
        assert(s1.subrange(0, bound)[k] == s1[k]);
        assert(s2.subrange(0, bound)[k] == s2[k]);
    }
    lemma_line_end_from(s1, from);
    lemma_line_end_from(s2, from);
    if from < bound && s1[from] != 10u8 {
        lemma_scan_prefix(s1, s2, from + 1, bound);
    }
}

/// Two texts that share the prefix reaching line `n`'s start have the same
/// line layout up to line `n`.
pub proof fn lemma_agree_from_prefix(s1: Seq<u8>, s2: Seq<u8>, bound: int, n: nat)
    requires
        n < line_count(s1),
        line_start(s1, n) <= bound,
        bound <= s1.len(),
        bound <= s2.len(),
        s1.subrange(0, bound) == s2.subrange(0, bound),
    ensures
        agree_below(s1, s2, n),
        nl_from(s2, 0) >= n,
    decreases n,
{
    assert forall|k: int| 0 <= k < bound implies s1[k] == s2[k] by {
        assert(s1.subrange(0, bound)[k] == s1[k]);
        assert(s2.subrange(0, bound)[k] == s2[k]);
    }
    if n == 0 {
        assert forall|k: nat| k <= n implies line_start(s1, k) == line_start(s2, k) by {}
    } else {
        let m = (n - 1) as nat;
        lemma_line_start(s1, n);
        lemma_line_start_mono(s1, m, n);
        lemma_agree_from_prefix(s1, s2, bound, m);
        let p = line_start(s1, m);
        lemma_line_start(s1, m);
        lemma_line_end_from(s1, p);
        // line m's newline lies strictly before line n's start, hence before bound
        assert(line_end_from(s1, p) == line_start(s1, n) - 1);
        assert(line_end_from(s1, p) < bound);
        lemma_scan_prefix(s1, s2, p, bound);
        assert(line_start(s2, n) == line_start(s1, n));
        assert forall|k: nat| k <= n implies line_start(s1, k) == line_start(s2, k) by {
            if k < n {
                assert(line_start(s1, k) == line_start(s2, k));
            }
        }
        // bodies: line m is the newly covered one
        assert forall|k: nat| k < n implies line_body(s1, k) == line_body(s2, k) by {
            if k == m {
                lemma_line_body_eq(s1, s2, bound, m);
            }
        }
        // newline counting: each line below n ends in a real newline of s2
        assert forall|k: nat| k <= n implies #[trigger] line_start(s2, k) <= s2.len() by {
            if k < n {
                lemma_line_start_mono(s1, k, n);
            }
            assert(line_start(s1, k) <= bound);
        }
        assert forall|k: nat| k < n implies line_start(s2, k) < #[trigger] line_start(
            s2,
            (k + 1) as nat,
        ) by {
            lemma_line_start(s1, (k + 1) as nat);
        }
        lemma_nl_lower(s2, n);
    }
}

/// Helper: equal prefixes give equal bodies for a line wholly inside the
/// prefix (its terminating newline included).
proof fn lemma_line_body_eq(s1: Seq<u8>, s2: Seq<u8>, bound: int, k: nat)
    requires
        k + 1 < line_count(s1),
        line_start(s1, k + 1) <= bound,
        bound <= s1.len(),
        bound <= s2.len(),
        s1.subrange(0, bound) == s2.subrange(0, bound),
        line_start(s2, k) == line_start(s1, k),
    ensures
        line_body(s1, k) == line_body(s2, k),
{
    assert forall|j: int| 0 <= j < bound implies s1[j] == s2[j] by {
        assert(s1.subrange(0, bound)[j] == s1[j]);
        assert(s2.subrange(0, bound)[j] == s2[j]);
    }
    lemma_line_start(s1, (k + 1) as nat);
    lemma_line_start(s1, k);
    let p = line_start(s1, k);
    lemma_line_end_from(s1, p);
    assert(line_end_from(s1, p) == line_start(s1, k + 1) - 1);
    assert(line_end_from(s1, p) < bound);
    lemma_scan_prefix(s1, s2, p, bound);
    lemma_line_end_from(s2, p);
    assert(line_raw(s1, k) =~= line_raw(s2, k));
    assert(line_end(s1, k) < s1.len());
    assert(line_end(s2, k) < s2.len());
}

/// If every line below `n` begins where the previous one's newline ended, the
/// text holds at least `n` newlines.
proof fn lemma_nl_lower(s: Seq<u8>, n: nat)
    requires
        forall|k: nat| k <= n ==> #[trigger] line_start(s, k) <= s.len(),
        forall|k: nat| k < n ==> line_start(s, k) < #[trigger] line_start(s, (k + 1) as nat),
    ensures
        nl_from(s, 0) >= n,
{
    lemma_nl_lower_from(s, n, 0);
}

proof fn lemma_nl_lower_from(s: Seq<u8>, n: nat, i: nat)
    requires
        i <= n,
        0 <= line_start(s, i),
        forall|k: nat| k <= n ==> #[trigger] line_start(s, k) <= s.len(),
        forall|k: nat| k < n ==> line_start(s, k) < #[trigger] line_start(s, (k + 1) as nat),
    ensures
        nl_from(s, line_start(s, i)) >= n - i,
    decreases n - i,
{
    if i < n {
        let p = line_start(s, i);
        assert(line_start(s, (i + 1) as nat) <= s.len());
        assert(p < line_start(s, (i + 1) as nat));
        lemma_nl_step(s, p);
        assert(line_end_from(s, p) == line_start(s, (i + 1) as nat) - 1);
        assert(line_end_from(s, p) < s.len());
        lemma_nl_lower_from(s, n, (i + 1) as nat);
    }
}

/// There are never more newlines than bytes after a position.
pub proof fn lemma_nl_le(s: Seq<u8>, from: int)
    requires
        0 <= from <= s.len(),
    ensures
        nl_from(s, from) <= s.len() - from,
    decreases s.len() - from,
{
    if from < s.len() {
        lemma_nl_le(s, from + 1);
    }
}

/// Splicing an empty insertion at one position gives the text back
/// unchanged.
pub proof fn lemma_splice_empty(s: Seq<u8>, o: int)
    requires
        0 <= o <= s.len(),
    ensures
        splice(s, o, o, Seq::<u8>::empty()) == s,
{
    assert(splice(s, o, o, Seq::<u8>::empty()) =~= s);
}

} // verus!
