//! Path patterns and their matching semantics.
//!
//! A pattern is a '/'-separated list of segments.  A segment is either
//! static text (matches only itself), a parameter `:name` (matches any one
//! segment and binds it under `name`), or the trailing catch-all `**`
//! (matches any remainder of the path, including an empty one).
//!
//! Patterns are ordered by specificity: position by position, static text
//! is more specific than a parameter, a parameter more specific than the
//! catch-all, and ending exactly is more specific than anything.  This is
//! the precedence used both by route resolution (most specific match wins)
//! and by scope matching (all matches, least specific first).

use vstd::prelude::*;

verus! {

/// One segment of a parsed pattern.
#[derive(Debug)]
pub enum PatternSeg {
    /// Static text: matches exactly itself.
    Static(String),
    /// `:name`: matches any single path segment, binding it under `name`.
    Param(String),
    /// `**`: matches the whole remainder of the path (only valid last).
    CatchAll,
}

/// Spec-level shape of one pattern segment.
#[verifier::ext_equal]
pub ghost enum PatternSegView {
    Static(Seq<char>),
    Param(Seq<char>),
    CatchAll,
}

impl View for PatternSeg {
    type V = PatternSegView;

    open spec fn view(&self) -> PatternSegView {
        match self {
            PatternSeg::Static(t) => PatternSegView::Static(t@),
            PatternSeg::Param(n) => PatternSegView::Param(n@),
            PatternSeg::CatchAll => PatternSegView::CatchAll,
        }
    }
}

impl Clone for PatternSeg {
    fn clone(&self) -> (r: Self)
        ensures
            r@ == self@,
    {
        match self {
            PatternSeg::Static(t) => PatternSeg::Static(t.clone()),
            PatternSeg::Param(n) => PatternSeg::Param(n.clone()),
            PatternSeg::CatchAll => PatternSeg::CatchAll,
        }
    }
}

/// The views of a sequence of strings.
pub open spec fn seq_views(v: Seq<String>) -> Seq<Seq<char>> {
    v.map(|i: int, s: String| s@)
}

/// The views of a sequence of pattern segments.
pub open spec fn seg_views(v: Seq<PatternSeg>) -> Seq<PatternSegView> {
    v.map(|i: int, s: PatternSeg| s@)
}

/// Clones a vector of strings, preserving its text.
pub(crate) fn clone_strings(v: &Vec<String>) -> (r: Vec<String>)
    ensures
        seq_views(r@) == seq_views(v@),
{
    let mut out: Vec<String> = Vec::new();
    let mut i: usize = 0;
    while i < v.len()
        invariant
            i <= v@.len(),
            seq_views(out@) =~= seq_views(v@).take(i as int),
        decreases v.len() - i,
    {
        let ghost before = seq_views(out@);
        out.push(v[i].clone());
        proof {
            assert(seq_views(out@) =~= before.push(out@.last()@));
            assert(seq_views(v@).take(i + 1) =~= seq_views(v@).take(i as int).push(v@[i as int]@));
        }
        i = i + 1;
    }
    proof {
        assert(seq_views(out@) =~= seq_views(v@));
    }
    out
}

// ----------------------------------------------------------------------
// Splitting a path into segments
// ----------------------------------------------------------------------
/// End of the path segment that starts at `i`: the first position at or
/// after `i` that carries a '/' (or the end of the text).
pub open spec fn seg_end(s: Seq<char>, i: int) -> int
    decreases s.len() - i,
{
    if i < 0 || i >= s.len() {
        s.len() as int
    } else if s[i] == '/' {
        i
    } else {
        seg_end(s, i + 1)
    }
}

pub proof fn lemma_seg_end(s: Seq<char>, i: int)
    requires
        0 <= i <= s.len(),
    ensures
        i <= seg_end(s, i) <= s.len(),
        forall|k: int| i <= k < seg_end(s, i) ==> s[k] != '/',
        seg_end(s, i) < s.len() ==> s[seg_end(s, i)] == '/',
    decreases s.len() - i,
{
    if i < s.len() && s[i] != '/' {
        lemma_seg_end(s, i + 1);
    }
}

/// The converse direction: a stretch of non-'/' characters followed by a
/// '/' (or the end) pins `seg_end` down.
pub proof fn lemma_seg_end_is(s: Seq<char>, i: int, j: int)
    requires
        0 <= i <= j <= s.len(),
        forall|k: int| i <= k < j ==> s[k] != '/',
        j < s.len() ==> s[j] == '/',
    ensures
        seg_end(s, i) == j,
    decreases j - i,
{
    if i < j {
        lemma_seg_end_is(s, i + 1, j);
    }
}

/// The segments of a path text, reading from position `i` on: maximal runs
/// of non-'/' characters.  Empty segments do not exist by construction, so
/// leading, trailing and repeated slashes are ignored.
pub open spec fn split_from(s: Seq<char>, i: int) -> Seq<Seq<char>>
    decreases s.len() - i,
    when 0 <= i
    via split_from_dec
{
    if i >= s.len() {
        Seq::empty()
    } else if s[i] == '/' {
        split_from(s, i + 1)
    } else {
        seq![s.subrange(i, seg_end(s, i))] + split_from(s, seg_end(s, i))
    }
}

#[via_fn]
proof fn split_from_dec(s: Seq<char>, i: int) {
    if 0 <= i < s.len() && s[i] != '/' {
        lemma_seg_end(s, i);
    }
}

/// The segment sequence of a whole path.
pub open spec fn path_segments(s: Seq<char>) -> Seq<Seq<char>> {
    split_from(s, 0)
}

/// Splits a path into its segments.
pub fn split_path(path: &str) -> (r: Vec<String>)
    ensures
        seq_views(r@) == path_segments(path@),
{
    let n = path.unicode_len();
    let mut out: Vec<String> = Vec::new();
    let mut i: usize = 0;
    while i < n
        invariant
            i <= n,
            n == path@.len(),
            path_segments(path@) == seq_views(out@) + split_from(path@, i as int),
        decreases n - i,
    {
        if path.get_char(i) == '/' {
            i = i + 1;
        } else {
            let mut j: usize = i + 1;
            while j < n && path.get_char(j) != '/'
                invariant
                    i < j <= n,
                    n == path@.len(),
                    forall|k: int| i <= k < j ==> path@[k] != '/',
                decreases n - j,
            {
                j = j + 1;
            }
            proof {
                lemma_seg_end_is(path@, i as int, j as int);
            }
            let seg = path.substring_char(i, j).to_owned();
            out.push(seg);
            proof {
                assert(seq_views(out@) =~= seq_views(out@.drop_last()) + seq![path@.subrange(
                    i as int,
                    j as int,
                )]);
            }
            i = j;
        }
    }
    proof {
        assert(seq_views(out@) + split_from(path@, i as int) =~= seq_views(out@));
    }
    out
}

// ----------------------------------------------------------------------
// Parsing a pattern
// ----------------------------------------------------------------------
/// How one pattern segment is read from its text: the catch-all marker (in
/// last position only), a `:name` parameter, or static text.
pub open spec fn classify_seg(text: Seq<char>, is_last: bool) -> PatternSegView {
    if text == "**"@ && is_last {
        PatternSegView::CatchAll
    } else if text.len() > 0 && text[0] == ':' {
        PatternSegView::Param(text.subrange(1, text.len() as int))
    } else {
        PatternSegView::Static(text)
    }
}

/// The spec-level parse of a whole pattern text.
pub open spec fn pattern_view_of(raw: Seq<char>) -> Seq<PatternSegView> {
    let segs = path_segments(raw);
    Seq::new(segs.len(), |i: int| classify_seg(segs[i], i == segs.len() - 1))
}

/// The catch-all may only stand in last position.
pub open spec fn pattern_wf(pat: Seq<PatternSegView>) -> bool {
    forall|i: int| 0 <= i < pat.len() - 1 ==> !(pat[i] is CatchAll)
}

/// A parsed path pattern, carrying its original text.
#[derive(Debug)]
pub struct PathPattern {
    raw: String,
    segs: Vec<PatternSeg>,
}

impl View for PathPattern {
    type V = Seq<PatternSegView>;

    closed spec fn view(&self) -> Seq<PatternSegView> {
        seg_views(self.segs@)
    }
}

impl Clone for PathPattern {
    fn clone(&self) -> (r: Self)
        ensures
            r@ == self@,
            r.text() == self.text(),
    {
        let mut segs: Vec<PatternSeg> = Vec::new();
        let mut i: usize = 0;
        while i < self.segs.len()
            invariant
                i <= self.segs.len(),
                seg_views(segs@) =~~= seg_views(self.segs@.take(i as int)),
            decreases self.segs.len() - i,
        {
            segs.push(self.segs[i].clone());
            proof {
                assert(seg_views(segs@) =~~= seg_views(segs@.drop_last()).push(segs@.last()@));
                assert(seg_views(self.segs@.take(i + 1)) =~~= seg_views(self.segs@.take(i as int)).push(
                    self.segs@[i as int]@,
                ));
            }
            i = i + 1;
        }
        proof {
            assert(self.segs@.take(self.segs@.len() as int) =~= self.segs@);
            assert(seg_views(segs@) =~~= seg_views(self.segs@));
        }
        PathPattern { raw: self.raw.clone(), segs }
    }
}

impl PathPattern {
    /// The original pattern text.
    pub closed spec fn text(&self) -> Seq<char> {
        self.raw@
    }

    pub open spec fn wf(&self) -> bool {
        &&& self@ == pattern_view_of(self.text())
        &&& pattern_wf(self@)
    }

    /// Parses a pattern text into its segments.
    pub fn parse(raw: String) -> (r: PathPattern)
        ensures
            r.wf(),
            r.text() == raw@,
            r@ == pattern_view_of(raw@),
    {
        let parts = split_path(raw.as_str());
        let mut segs: Vec<PatternSeg> = Vec::new();
        let marker: String = String::from_str("**");
        proof {
            reveal_strlit("**");
        }
        let mut i: usize = 0;
        while i < parts.len()
            invariant
                i <= parts.len(),
                marker@ == "**"@,
                seq_views(parts@) == path_segments(raw@),
                parts@.len() == pattern_view_of(raw@).len(),
                seg_views(segs@) =~~= pattern_view_of(raw@).take(i as int),
            decreases parts.len() - i,
        {
            let part = &parts[i];
            let is_last = i + 1 == parts.len();
            let seg: PatternSeg = if is_last && *part == marker {
                PatternSeg::CatchAll
            } else {
                let len = part.unicode_len();
                if len > 0 && part.get_char(0) == ':' {
                    PatternSeg::Param(part.substring_char(1, len).to_owned())
                } else {
                    PatternSeg::Static(part.clone())
                }
            };
            proof {
                assert(seq_views(parts@)[i as int] == part@);
                assert(seg@ == classify_seg(part@, i == parts@.len() - 1));
                assert(path_segments(raw@)[i as int] == part@);
                assert(seg@ == pattern_view_of(raw@)[i as int]);
            }
            let ghost prev = segs@;
            segs.push(seg);
            proof {
                assert(segs@.drop_last() =~= prev);
                assert(seg_views(segs@) =~~= seg_views(segs@.drop_last()).push(segs@.last()@));
                assert(seg_views(segs@) =~~= pattern_view_of(raw@).take(i + 1));
            }
            i = i + 1;
        }
        proof {
            assert(pattern_view_of(raw@).take(i as int) =~= pattern_view_of(raw@));
            assert(seg_views(segs@) =~~= pattern_view_of(raw@));
            assert forall|k: int| 0 <= k < seg_views(segs@).len() - 1 implies !(seg_views(segs@)[k]
                is CatchAll) by {}
        }
        PathPattern { raw, segs }
    }
}

// ----------------------------------------------------------------------
// Matching
// ----------------------------------------------------------------------
/// Whether the pattern, read from segment `i` on, matches the path
/// segments from position `i` on (pattern and path advance in lockstep;
/// the catch-all absorbs the whole remainder).
pub open spec fn match_from(pat: Seq<PatternSegView>, segs: Seq<Seq<char>>, i: int) -> bool
    decreases pat.len() - i,
{
    if i < 0 || i > pat.len() {
        false
    } else if i == pat.len() {
        segs.len() == i
    } else {
        match pat[i] {
            PatternSegView::Static(t) => i < segs.len() && segs[i] == t && match_from(
                pat,
                segs,
                i + 1,
            ),
            PatternSegView::Param(_) => i < segs.len() && match_from(pat, segs, i + 1),
            PatternSegView::CatchAll => i == pat.len() - 1 && segs.len() >= i,
        }
    }
}

/// Whether a pattern matches a segmented path.
pub open spec fn pattern_matches(pat: Seq<PatternSegView>, segs: Seq<Seq<char>>) -> bool {
    match_from(pat, segs, 0)
}

/// The parameter bindings a match produces, reading from position `i` on:
/// one (name, segment) pair per `:name` segment, in pattern order.
pub open spec fn bindings_from(pat: Seq<PatternSegView>, segs: Seq<Seq<char>>, i: int) -> Seq<
    (Seq<char>, Seq<char>),
>
    decreases pat.len() - i,
{
    if i < 0 || i >= pat.len() {
        Seq::empty()
    } else {
        match pat[i] {
            PatternSegView::Param(n) => seq![(n, segs[i])] + bindings_from(pat, segs, i + 1),
            _ => bindings_from(pat, segs, i + 1),
        }
    }
}

/// The parameter bindings of a whole match.
pub open spec fn pattern_bindings(pat: Seq<PatternSegView>, segs: Seq<Seq<char>>) -> Seq<
    (Seq<char>, Seq<char>),
> {
    bindings_from(pat, segs, 0)
}

/// View of a vector of string pairs.
pub open spec fn pair_views(v: Seq<(String, String)>) -> Seq<(Seq<char>, Seq<char>)> {
    v.map(|i: int, p: (String, String)| (p.0@, p.1@))
}

impl PathPattern {
    /// Matches the pattern against a segmented path; on success returns the
    /// parameter bindings, in pattern order.
    pub fn match_segments(&self, path_segs: &Vec<String>) -> (r: Option<Vec<(String, String)>>)
        ensures
            r is Some <==> pattern_matches(self@, seq_views(path_segs@)),
            r is Some ==> pair_views(r->Some_0@) == pattern_bindings(self@, seq_views(path_segs@)),
    {
        let ghost pat = self@;
        let ghost segs = seq_views(path_segs@);
        let mut bindings: Vec<(String, String)> = Vec::new();
        let mut i: usize = 0;
        while i < self.segs.len()
            invariant
                i <= self.segs.len(),
                pat == self@,
                segs == seq_views(path_segs@),
                match_from(pat, segs, 0) == match_from(pat, segs, i as int),
                pair_views(bindings@) =~= pattern_bindings(pat, segs).take(
                    pattern_bindings(pat, segs).len() - bindings_from(pat, segs, i as int).len(),
                ),
                bindings_from(pat, segs, i as int).len() <= pattern_bindings(pat, segs).len(),
                pattern_bindings(pat, segs) =~= pair_views(bindings@) + bindings_from(
                    pat,
                    segs,
                    i as int,
                ),
            decreases self.segs.len() - i,
        {
            match &self.segs[i] {
                PatternSeg::Static(t) => {
                    if i >= path_segs.len() {
                        return None;
                    }
                    if !(*t == path_segs[i]) {
                        return None;
                    }
                },
                PatternSeg::Param(n) => {
                    if i >= path_segs.len() {
                        return None;
                    }
                    bindings.push((n.clone(), path_segs[i].clone()));
                    proof {
                        assert(pair_views(bindings@) =~= pair_views(bindings@.drop_last()).push(
                            (bindings@.last().0@, bindings@.last().1@),
                        ));
                    }
                },
                PatternSeg::CatchAll => {
                    if i + 1 == self.segs.len() && path_segs.len() >= i {
                        proof {
                            assert(match_from(pat, segs, i as int));
                            assert(bindings_from(pat, segs, i + 1) =~= Seq::empty());
                            assert(bindings_from(pat, segs, i as int) =~= Seq::empty());
                            assert(pair_views(bindings@) =~= pattern_bindings(pat, segs));
                        }
                        return Some(bindings);
                    }
                    return None;
                },
            }
            i = i + 1;
        }
        if path_segs.len() == self.segs.len() {
            proof {
                assert(match_from(pat, segs, i as int));
                assert(bindings_from(pat, segs, i as int) =~= Seq::empty());
                assert(pair_views(bindings@) =~= pattern_bindings(pat, segs));
            }
            Some(bindings)
        } else {
            None
        }
    }
}

// ----------------------------------------------------------------------
// Specificity
// ----------------------------------------------------------------------
/// Rank of one segment kind: catch-all < parameter < static text.
pub open spec fn seg_rank(v: PatternSegView) -> int {
    match v {
        PatternSegView::CatchAll => 0,
        PatternSegView::Param(_) => 1,
        PatternSegView::Static(_) => 2,
    }
}

/// Rank of a pattern at a position; past its end a pattern ranks highest
/// (ending exactly is more specific than matching more).
pub open spec fn rank_at(pat: Seq<PatternSegView>, i: int) -> int {
    if 0 <= i < pat.len() {
        seg_rank(pat[i])
    } else {
        3
    }
}

/// Strict "less specific than", comparing ranks position by position.
pub open spec fn less_specific_from(a: Seq<PatternSegView>, b: Seq<PatternSegView>, i: int) -> bool
    decreases a.len() + b.len() - i,
{
    if i < 0 || (i >= a.len() && i >= b.len()) {
        false
    } else if rank_at(a, i) < rank_at(b, i) {
        true
    } else if rank_at(a, i) > rank_at(b, i) {
        false
    } else {
        less_specific_from(a, b, i + 1)
    }
}

/// `a` is strictly less specific than `b`.
pub open spec fn less_specific(a: Seq<PatternSegView>, b: Seq<PatternSegView>) -> bool {
    less_specific_from(a, b, 0)
}

/// A pattern made of static segments only (no parameters, no catch-all).
pub open spec fn all_static(pat: Seq<PatternSegView>) -> bool {
    forall|i: int| 0 <= i < pat.len() ==> pat[i] is Static
}

/// "Strictly less specific" is asymmetric.
pub proof fn lemma_less_specific_asymmetric(a: Seq<PatternSegView>, b: Seq<PatternSegView>, i: int)
    requires
        less_specific_from(a, b, i),
    ensures
        !less_specific_from(b, a, i),
    decreases a.len() + b.len() - i,
{
    if rank_at(a, i) == rank_at(b, i) {
        lemma_less_specific_asymmetric(a, b, i + 1);
    }
}

/// "Strictly less specific" is a strict weak order: below any strictly
/// related pair, a third pattern compares on one side or the other.
pub proof fn lemma_less_specific_total(
    a: Seq<PatternSegView>,
    b: Seq<PatternSegView>,
    c: Seq<PatternSegView>,
    i: int,
)
    requires
        0 <= i,
        less_specific_from(c, a, i),
    ensures
        less_specific_from(c, b, i) || less_specific_from(b, a, i),
    decreases a.len() + b.len() + c.len() - i,
{
    let ra = rank_at(a, i);
    let rb = rank_at(b, i);
    let rc = rank_at(c, i);
    if rc == ra {
        if rb == ra {
            lemma_less_specific_total(a, b, c, i + 1);
        }
    }
}

/// Against one segmented path, a fully static matching pattern is at least
/// as specific as any other matching pattern: reading from position `i`,
/// either the other pattern is strictly less specific, or the two patterns
/// agree segment for segment from `i` on.
pub proof fn lemma_static_beats_from(
    pat_s: Seq<PatternSegView>,
    pat_o: Seq<PatternSegView>,
    segs: Seq<Seq<char>>,
    i: int,
)
    requires
        0 <= i,
        all_static(pat_s),
        match_from(pat_s, segs, i),
        match_from(pat_o, segs, i),
    ensures
        less_specific_from(pat_o, pat_s, i) || (pat_o.len() == pat_s.len() && forall|k: int|
            i <= k < pat_s.len() ==> pat_o[k] == pat_s[k]),
    decreases pat_s.len() - i,
{
    if i == pat_s.len() {
        if i < pat_o.len() {
            assert(pat_o[i] is CatchAll);
            assert(rank_at(pat_o, i) == 0 && rank_at(pat_s, i) == 3);
        }
    } else {
        assert(pat_s[i] is Static);
        assert(i < segs.len());
        if i == pat_o.len() {
            assert(false);
        } else {
            match pat_o[i] {
                PatternSegView::Static(to) => {
                    lemma_static_beats_from(pat_s, pat_o, segs, i + 1);
                    let ts = pat_s[i]->Static_0;
                    assert(to == segs[i] && ts == segs[i]);
                    assert(pat_o[i] == pat_s[i]);
                },
                PatternSegView::Param(_) => {
                    assert(rank_at(pat_o, i) == 1 && rank_at(pat_s, i) == 2);
                },
                PatternSegView::CatchAll => {
                    assert(rank_at(pat_o, i) == 0 && rank_at(pat_s, i) == 2);
                },
            }
        }
    }
}

/// Against one segmented path, any matching pattern other than a fully
/// static match is strictly less specific than that static match.
pub proof fn lemma_static_most_specific(
    pat_s: Seq<PatternSegView>,
    pat_o: Seq<PatternSegView>,
    segs: Seq<Seq<char>>,
)
    requires
        all_static(pat_s),
        pattern_matches(pat_s, segs),
        pattern_matches(pat_o, segs),
        pat_o != pat_s,
    ensures
        less_specific(pat_o, pat_s),
{
    lemma_static_beats_from(pat_s, pat_o, segs, 0);
    if !less_specific_from(pat_o, pat_s, 0) {
        assert(pat_o =~~= pat_s);
        assert(false);
    }
}

impl PathPattern {
    /// Compares two patterns by specificity.
    pub fn is_less_specific(&self, other: &PathPattern) -> (r: bool)
        ensures
            r == less_specific(self@, other@),
    {
        let n = if self.segs.len() > other.segs.len() {
            self.segs.len()
        } else {
            other.segs.len()
        };
        let mut i: usize = 0;
        while i < n
            invariant
                i <= n,
                n == if self.segs@.len() > other.segs@.len() {
                    self.segs@.len()
                } else {
                    other.segs@.len()
                },
                less_specific(self@, other@) == less_specific_from(self@, other@, i as int),
            decreases n - i,
        {
            let ra = self.rank_of(i);
            let rb = other.rank_of(i);
            if ra < rb {
                return true;
            }
            if ra > rb {
                return false;
            }
            i = i + 1;
        }
        false
    }

    /// Whether two patterns have the same parsed shape (segment by
    /// segment), i.e. would match exactly alike.
    pub fn same_shape(&self, other: &PathPattern) -> (r: bool)
        ensures
            r == (self@ == other@),
    {
        if self.segs.len() != other.segs.len() {
            proof {
                assert(self@.len() != other@.len());
            }
            return false;
        }
        let mut i: usize = 0;
        while i < self.segs.len()
            invariant
                i <= self.segs@.len(),
                self.segs@.len() == other.segs@.len(),
                forall|k: int| 0 <= k < i ==> self@[k] == other@[k],
            decreases self.segs.len() - i,
        {
            let same = match (&self.segs[i], &other.segs[i]) {
                (PatternSeg::Static(a), PatternSeg::Static(b)) => *a == *b,
                (PatternSeg::Param(a), PatternSeg::Param(b)) => *a == *b,
                (PatternSeg::CatchAll, PatternSeg::CatchAll) => true,
                _ => false,
            };
            if !same {
                proof {
                    assert(self@[i as int] != other@[i as int]);
                }
                return false;
            }
            i = i + 1;
        }
        proof {
            assert(self@ =~~= other@);
        }
        true
    }

    fn rank_of(&self, i: usize) -> (r: u8)
        ensures
            r as int == rank_at(self@, i as int),
    {
        if i < self.segs.len() {
            match &self.segs[i] {
                PatternSeg::CatchAll => 0,
                PatternSeg::Param(_) => 1,
                PatternSeg::Static(_) => 2,
            }
        } else {
            3
        }
    }
}

} // verus!
