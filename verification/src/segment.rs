//! Splitting a text at the boundaries that an ordered list of rules confirms.
//!
//! Positions are counted in characters. A position strictly inside the text
//! is a boundary when the first rule that applies there is a break rule; a
//! position where no rule applies, or where a no-break rule applies first, is
//! not. The two ends of the text are never boundaries, so a segment is empty
//! only when the text is.
use vstd::prelude::*;
use crate::cursor::Cursor;
use crate::rules::{ResolvedRules, RuleView};

verus! {

/// The first rule, from index `from` on, that applies between `left` and
/// `right`.
pub open spec fn first_applying(
    rules: Seq<RuleView>,
    left: Seq<char>,
    right: Seq<char>,
    from: int,
) -> Option<int>
    decreases rules.len() - from,
{
    if from < 0 || from >= rules.len() {
        None
    } else if rules[from].applies(left, right) {
        Some(from)
    } else {
        first_applying(rules, left, right, from + 1)
    }
}

/// The decision of the rules on the position between `left` and `right`:
/// that of the first rule that applies, and no break where none does.
pub open spec fn breaks_between(rules: Seq<RuleView>, left: Seq<char>, right: Seq<char>) -> bool {
    match first_applying(rules, left, right, 0) {
        Some(index) => rules[index].breaks,
        None => false,
    }
}

/// Whether position `at` of `text` is a boundary.
pub open spec fn breaks_at(rules: Seq<RuleView>, text: Seq<char>, at: int) -> bool {
    0 < at < text.len() && breaks_between(
        rules,
        text.subrange(0, at),
        text.subrange(at, text.len() as int),
    )
}

/// The boundaries of `text` below position `limit`, in increasing order.
pub open spec fn boundaries_below(rules: Seq<RuleView>, text: Seq<char>, limit: int) -> Seq<int>
    decreases limit,
{
    if limit <= 1 {
        Seq::empty()
    } else if breaks_at(rules, text, limit - 1) {
        boundaries_below(rules, text, limit - 1).push(limit - 1)
    } else {
        boundaries_below(rules, text, limit - 1)
    }
}

/// All boundaries of `text`, in increasing order.
pub open spec fn boundaries(rules: Seq<RuleView>, text: Seq<char>) -> Seq<int> {
    boundaries_below(rules, text, text.len() as int)
}

/// Cut positions that increase and lie inside a text of length `len`.
pub open spec fn ordered_cuts(cuts: Seq<int>, len: int) -> bool {
    &&& forall|i: int| 0 <= i < cuts.len() ==> 0 <= #[trigger] cuts[i] <= len
    &&& forall|i: int, j: int| 0 <= i < j < cuts.len() ==> cuts[i] <= cuts[j]
}

/// Where piece `k` of a text cut at `cuts` starts.
pub open spec fn piece_start(cuts: Seq<int>, k: int) -> int {
    if k <= 0 {
        0
    } else {
        cuts[k - 1]
    }
}

/// Where piece `k` of a text of length `len` cut at `cuts` ends.
pub open spec fn piece_end(cuts: Seq<int>, len: int, k: int) -> int {
    if k >= cuts.len() {
        len
    } else {
        cuts[k]
    }
}

/// The pieces of `text` between consecutive cuts: one more than there are
/// cuts.
pub open spec fn pieces(text: Seq<char>, cuts: Seq<int>) -> Seq<Seq<char>> {
    Seq::new(
        cuts.len() + 1,
        |k: int| text.subrange(piece_start(cuts, k), piece_end(cuts, text.len() as int, k)),
    )
}

/// The segments of `text` under `rules`.
pub open spec fn segments(rules: Seq<RuleView>, text: Seq<char>) -> Seq<Seq<char>> {
    pieces(text, boundaries(rules, text))
}

/// Cut positions as mathematical integers.
pub open spec fn positions(cuts: Seq<usize>) -> Seq<int> {
    Seq::new(cuts.len(), |i: int| cuts[i] as int)
}

/// `first_applying` names the least index, at or after `from`, of a rule
/// that applies, and reports `None` exactly when there is no such rule.
pub proof fn first_applying_is_least(
    rules: Seq<RuleView>,
    left: Seq<char>,
    right: Seq<char>,
    from: int,
)
    requires
        0 <= from,
    ensures
        match first_applying(rules, left, right, from) {
            Some(index) => {
                &&& from <= index < rules.len()
                &&& rules[index].applies(left, right)
                &&& forall|j: int| from <= j < index ==> !#[trigger] rules[j].applies(left, right)
            },
            None => forall|j: int|
                from <= j < rules.len() ==> !#[trigger] rules[j].applies(left, right),
        },
    decreases rules.len() - from,
{
    if from < rules.len() && !rules[from].applies(left, right) {
        first_applying_is_least(rules, left, right, from + 1);
    }
}

/// The boundaries below a limit are exactly the positions under it at which
/// the rules break, each once and in increasing order.
pub proof fn boundaries_below_are_breaks(rules: Seq<RuleView>, text: Seq<char>, limit: int)
    requires
        limit <= text.len(),
    ensures
        ordered_cuts(boundaries_below(rules, text, limit), text.len() as int),
        forall|i: int, j: int|
            0 <= i < j < boundaries_below(rules, text, limit).len() ==> boundaries_below(
                rules,
                text,
                limit,
            )[i] < boundaries_below(rules, text, limit)[j],
        forall|at: int| #[trigger]
            boundaries_below(rules, text, limit).contains(at) ==> at < limit && breaks_at(
                rules,
                text,
                at,
            ),
        forall|at: int|
            at < limit && #[trigger] breaks_at(rules, text, at) ==> boundaries_below(
                rules,
                text,
                limit,
            ).contains(at),
    decreases limit,
{
    let all = boundaries_below(rules, text, limit);
    if limit > 1 {
        let rest = boundaries_below(rules, text, limit - 1);
        boundaries_below_are_breaks(rules, text, limit - 1);
        let newest = limit - 1;
        if breaks_at(rules, text, newest) {
            assert(all == rest.push(newest));
            assert(all.len() == rest.len() + 1);
            assert(all[rest.len() as int] == newest);
            assert forall|i: int| 0 <= i < rest.len() implies all[i] == rest[i] && rest[i]
                < newest by {
                assert(rest.contains(rest[i]));
            }
            assert forall|at: int| #[trigger] all.contains(at) implies at < limit && breaks_at(
                rules,
                text,
                at,
            ) by {
                let i = choose|i: int| 0 <= i < all.len() && all[i] == at;
                if i < rest.len() {
                    assert(rest.contains(rest[i]));
                }
            }
            assert forall|at: int| at < limit && #[trigger] breaks_at(
                rules,
                text,
                at,
            ) implies all.contains(at) by {
                if at < newest {
                    assert(rest.contains(at));
                    let i = choose|i: int| 0 <= i < rest.len() && rest[i] == at;
                    assert(all[i] == at);
                } else {
                    assert(all[rest.len() as int] == at);
                }
            }
            assert forall|i: int, j: int| 0 <= i < j < all.len() implies all[i] < all[j] by {
                if j < rest.len() {
                    assert(rest[i] < rest[j]);
                }
            }
        } else {
            assert(all == rest);
        }
    }
}

/// Joining the first `count` pieces of a text gives the text up to where
/// the last of them ends.
proof fn pieces_join_prefix(text: Seq<char>, cuts: Seq<int>, count: int)
    requires
        ordered_cuts(cuts, text.len() as int),
        0 <= count <= cuts.len() + 1,
    ensures
        pieces(text, cuts).take(count).flatten() == text.subrange(
            0,
            if count == 0 {
                0
            } else {
                piece_end(cuts, text.len() as int, count - 1)
            },
        ),
    decreases count,
{
    let all = pieces(text, cuts);
    if count == 0 {
        assert(all.take(0) =~= Seq::<Seq<char>>::empty());
        assert(text.subrange(0, 0) =~= Seq::<char>::empty());
    } else {
        pieces_join_prefix(text, cuts, count - 1);
        let last = all[count - 1];
        assert(all.take(count) =~= all.take(count - 1).push(last));
        all.take(count - 1).lemma_flatten_push(last);
        let start = piece_start(cuts, count - 1);
        let end = piece_end(cuts, text.len() as int, count - 1);
        assert(0 <= start <= end <= text.len()) by {
            if count - 1 > 0 {
                assert(0 <= cuts[count - 2] <= text.len());
            }
            if count - 1 < cuts.len() {
                assert(0 <= cuts[count - 1] <= text.len());
            }
        }
        assert(all.take(count - 1).flatten() == text.subrange(0, start));
        assert(text.subrange(0, start) + text.subrange(start, end) =~= text.subrange(0, end));
    }
}

/// Cutting a text and joining the pieces in order gives the text back.
pub proof fn pieces_join(text: Seq<char>, cuts: Seq<int>)
    requires
        ordered_cuts(cuts, text.len() as int),
    ensures
        pieces(text, cuts).flatten() == text,
{
    let all = pieces(text, cuts);
    pieces_join_prefix(text, cuts, all.len() as int);
    assert(all.take(all.len() as int) =~= all);
    assert(text.subrange(0, text.len() as int) =~= text);
}

/// Reconstruction: whatever the rules and the text, the segments joined in
/// order are the text, with no character lost or added.
pub proof fn segments_join(rules: Seq<RuleView>, text: Seq<char>)
    ensures
        segments(rules, text).flatten() == text,
{
    boundaries_below_are_breaks(rules, text, text.len() as int);
    pieces_join(text, boundaries(rules, text));
}

/// Determinism: the segments are a function of the rules and the text, so
/// two runs over the same rules and text give the same segments.
pub proof fn segments_are_determined(
    rules: Seq<RuleView>,
    text: Seq<char>,
    first: Seq<Seq<char>>,
    second: Seq<Seq<char>>,
)
    requires
        first == segments(rules, text),
        second == segments(rules, text),
    ensures
        first == second,
{
}

/// Without rules there is no boundary, and the text is its own single
/// segment.
pub proof fn no_rules_one_segment(rules: Seq<RuleView>, text: Seq<char>)
    requires
        rules.len() == 0,
    ensures
        boundaries(rules, text) == Seq::<int>::empty(),
        segments(rules, text) == seq![text],
{
    no_rules_no_boundaries(rules, text, text.len() as int);
    uncut_is_whole(text);
}

proof fn no_rules_no_boundaries(rules: Seq<RuleView>, text: Seq<char>, limit: int)
    requires
        rules.len() == 0,
    ensures
        boundaries_below(rules, text, limit) == Seq::<int>::empty(),
    decreases limit,
{
    if limit > 1 {
        no_rules_no_boundaries(rules, text, limit - 1);
    }
}

/// A text without cuts is one piece: the text itself.
pub proof fn uncut_is_whole(text: Seq<char>)
    ensures
        pieces(text, Seq::<int>::empty()) == seq![text],
{
    assert(text.subrange(0, text.len() as int) =~= text);
    assert(pieces(text, Seq::<int>::empty()) =~= seq![text]);
}

/// A text of at most one character has no position strictly inside it, so
/// it is always a single segment; the empty text gives one empty segment.
pub proof fn short_text_one_segment(rules: Seq<RuleView>, text: Seq<char>)
    requires
        text.len() <= 1,
    ensures
        segments(rules, text) == seq![text],
{
    uncut_is_whole(text);
}

/// No segment of a text that is not empty is empty: the boundaries lie
/// strictly inside the text and no two of them coincide.
pub proof fn segments_are_not_empty(rules: Seq<RuleView>, text: Seq<char>)
    requires
        text.len() > 0,
    ensures
        forall|k: int|
            0 <= k < segments(rules, text).len() ==> (#[trigger] segments(rules, text)[k]).len()
                > 0,
{
    let cuts = boundaries(rules, text);
    boundaries_below_are_breaks(rules, text, text.len() as int);
    assert forall|k: int| 0 <= k < segments(rules, text).len() implies (#[trigger] segments(
        rules,
        text,
    )[k]).len() > 0 by {
        if k > 0 {
            assert(cuts.contains(cuts[k - 1]));
        }
        if k < cuts.len() {
            assert(cuts.contains(cuts[k]));
        }
        assert(0 <= piece_start(cuts, k) < piece_end(cuts, text.len() as int, k) <= text.len());
    }
}

/// First match wins: where a no-break rule applies at a position and no
/// rule before it does, the position is no boundary, whatever break rules
/// come later and apply there too.
pub proof fn earlier_exception_wins(
    rules: Seq<RuleView>,
    text: Seq<char>,
    at: int,
    exception: int,
    later: int,
)
    requires
        0 <= exception < later < rules.len(),
        rules[exception].applies_at(text, at),
        !rules[exception].breaks,
        rules[later].applies_at(text, at),
        rules[later].breaks,
        forall|j: int| 0 <= j < exception ==> !#[trigger] rules[j].applies_at(text, at),
    ensures
        !breaks_at(rules, text, at),
        !boundaries(rules, text).contains(at),
{
    let left = text.subrange(0, at);
    let right = text.subrange(at, text.len() as int);
    first_applying_is_least(rules, left, right, 0);
    assert(first_applying(rules, left, right, 0) == Some(exception)) by {
        let found = first_applying(rules, left, right, 0);
        assert(rules[exception].applies(left, right));
        assert(found is Some);
        let index = found->Some_0;
        if index < exception {
            assert(!rules[index].applies_at(text, at));
        }
    }
    boundaries_below_are_breaks(rules, text, text.len() as int);
}

/// The first rule that applies at a position decides alone: the position
/// is a boundary exactly when it lies strictly inside the text and that
/// rule is a break rule.
pub proof fn first_match_decides(rules: Seq<RuleView>, text: Seq<char>, at: int, first: int)
    requires
        0 <= first < rules.len(),
        rules[first].applies_at(text, at),
        forall|j: int| 0 <= j < first ==> !#[trigger] rules[j].applies_at(text, at),
    ensures
        breaks_at(rules, text, at) == (0 < at < text.len() && rules[first].breaks),
        boundaries(rules, text).contains(at) == (0 < at < text.len() && rules[first].breaks),
{
    let left = text.subrange(0, at);
    let right = text.subrange(at, text.len() as int);
    first_applying_is_least(rules, left, right, 0);
    assert(first_applying(rules, left, right, 0) == Some(first)) by {
        let found = first_applying(rules, left, right, 0);
        assert(rules[first].applies(left, right));
        assert(found is Some);
        let index = found->Some_0;
        if index < first {
            assert(!rules[index].applies_at(text, at));
        }
    }
    boundaries_below_are_breaks(rules, text, text.len() as int);
}

/// Where no rule applies at a position, the position is no boundary.
pub proof fn no_match_no_break(rules: Seq<RuleView>, text: Seq<char>, at: int)
    requires
        forall|j: int| 0 <= j < rules.len() ==> !#[trigger] rules[j].applies_at(text, at),
    ensures
        !breaks_at(rules, text, at),
        !boundaries(rules, text).contains(at),
{
    let left = text.subrange(0, at);
    let right = text.subrange(at, text.len() as int);
    first_applying_is_least(rules, left, right, 0);
    assert(first_applying(rules, left, right, 0) is None) by {
        let found = first_applying(rules, left, right, 0);
        if found is Some {
            assert(!rules[found->Some_0].applies_at(text, at));
        }
    }
    boundaries_below_are_breaks(rules, text, text.len() as int);
}

impl ResolvedRules {
    /// The decision of the rules on the position between `left` and `right`:
    /// the first rule that applies there decides, and no later rule is asked.
    pub fn breaks_between(&self, left: &str, right: &str) -> (r: bool)
        ensures
            r == breaks_between(self@, left@, right@),
    {
        let mut i: usize = 0;
        while i < self.len()
            invariant
                i <= self@.len(),
                first_applying(self@, left@, right@, 0) == first_applying(
                    self@,
                    left@,
                    right@,
                    i as int,
                ),
            decreases self@.len() - i,
        {
            match self.get(i) {
                Some(rule) => {
                    if rule.applies(left, right) {
                        return rule.breaks();
                    }
                },
                None => {},
            }
            i += 1;
        }
        false
    }

    /// The boundaries of `text`, as character positions in increasing order.
    pub fn boundaries(&self, text: &str) -> (cuts: Vec<usize>)
        ensures
            positions(cuts@) == boundaries(self@, text@),
    {
        let mut cuts: Vec<usize> = Vec::new();
        let mut cursor = Cursor::new(text);
        assert(positions(cuts@) =~= Seq::<int>::empty());
        if cursor.at_end() {
            return cuts;
        }
        cursor.advance();
        while !cursor.at_end()
            invariant
                cursor.whole() == text@,
                1 <= cursor.passed() <= text@.len(),
                positions(cuts@) == boundaries_below(self@, text@, cursor.passed() as int),
            decreases text@.len() - cursor.passed(),
        {
            let (left, right) = cursor.sides();
            let at = cursor.position();
            let ghost before = positions(cuts@);
            if self.breaks_between(left, right) {
                cuts.push(at);
                assert(positions(cuts@) =~= before.push(at as int));
            }
            cursor.advance();
        }
        cuts
    }

    /// Splits `text` into its segments.
    ///
    /// The segments come in text order and join to the text again. Without
    /// rules, and for a text of at most one character, the text is its own
    /// single segment; no segment of a longer text is empty. The text is
    /// walked once, and each rule is asked at each position until one
    /// applies.
    pub fn split(&self, text: &str) -> (r: Vec<String>)
        ensures
            r.deep_view() == segments(self@, text@),
            r.deep_view().flatten() == text@,
            r@.len() == boundaries(self@, text@).len() + 1,
            self@.len() == 0 ==> r.deep_view() == seq![text@],
            text@.len() <= 1 ==> r.deep_view() == seq![text@],
            text@.len() > 0 ==> forall|k: int| 0 <= k < r@.len() ==> (#[trigger] r@[k])@.len() > 0,
    {
        let ghost len = text@.len() as int;
        let ghost mut cuts: Seq<int> = Seq::empty();
        let ghost mut start: int = 0;
        let mut parts: Vec<String> = Vec::new();
        let mut whole = Cursor::new(text);
        let mut pending = Cursor::new(text);
        proof {
            assert(text@.subrange(0, len) =~= text@);
            assert(parts.deep_view() =~= Seq::new(
                cuts.len(),
                |k: int| text@.subrange(piece_start(cuts, k), cuts[k]),
            ));
        }
        if !whole.at_end() {
            whole.advance();
            pending.advance();
            while !whole.at_end()
                invariant
                    len == text@.len(),
                    whole.whole() == text@,
                    1 <= whole.passed() <= len,
                    cuts == boundaries_below(self@, text@, whole.passed() as int),
                    start == piece_start(cuts, cuts.len() as int),
                    0 <= start < whole.passed(),
                    pending.whole() == text@.subrange(start, len),
                    pending.passed() == whole.passed() - start,
                    parts.deep_view() == Seq::new(
                        cuts.len(),
                        |k: int| text@.subrange(piece_start(cuts, k), cuts[k]),
                    ),
                decreases len - whole.passed(),
            {
                let ghost at = whole.passed() as int;
                let (left, right) = whole.sides();
                if self.breaks_between(left, right) {
                    let (segment, rest) = pending.sides();
                    let ghost before = parts.deep_view();
                    let ghost earlier = cuts;
                    parts.push(String::from_str(segment));
                    pending = Cursor::new(rest);
                    proof {
                        cuts = earlier.push(at);
                        assert(segment@ =~= text@.subrange(start, at));
                        assert(rest@ =~= text@.subrange(at, len));
                        assert(parts.deep_view() =~= before.push(segment@));
                        assert(parts.deep_view() =~= Seq::new(
                            cuts.len(),
                            |k: int| text@.subrange(piece_start(cuts, k), cuts[k]),
                        ));
                        start = at;
                    }
                }
                whole.advance();
                pending.advance();
            }
        }
        let ghost before = parts.deep_view();
        parts.push(String::from_str(pending.text()));
        proof {
            assert(cuts == boundaries(self@, text@));
            assert(parts.deep_view() =~= before.push(text@.subrange(start, len)));
            assert(parts.deep_view() =~= segments(self@, text@));
            segments_join(self@, text@);
            if self@.len() == 0 {
                no_rules_one_segment(self@, text@);
            }
            if text@.len() <= 1 {
                short_text_one_segment(self@, text@);
            }
            if text@.len() > 0 {
                segments_are_not_empty(self@, text@);
            }
            assert forall|k: int| 0 <= k < parts@.len() implies (#[trigger] parts@[k])@
                == parts.deep_view()[k] by {}
        }
        parts
    }
}

/// The segments as lines of output: each one followed by a line feed.
pub open spec fn rendered(parts: Seq<Seq<char>>) -> Seq<char>
    decreases parts.len(),
{
    if parts.len() == 0 {
        Seq::empty()
    } else {
        rendered(parts.drop_last()) + parts.last() + seq!['\n']
    }
}

/// Writes each segment on a line of its own.
pub fn render(parts: &Vec<String>) -> (r: String)
    ensures
        r@ == rendered(parts.deep_view()),
{
    let ghost all = parts.deep_view();
    let mut out = String::new();
    let mut i: usize = 0;
    proof {
        reveal_strlit("\n");
        assert("\n"@ =~= seq!['\n']);
        assert(all.take(0) =~= Seq::<Seq<char>>::empty());
    }
    while i < parts.len()
        invariant
            i <= parts.len(),
            all == parts.deep_view(),
            "\n"@ == seq!['\n'],
            out@ == rendered(all.take(i as int)),
        decreases parts.len() - i,
    {
        proof {
            assert(all.take(i + 1).drop_last() =~= all.take(i as int));
            assert(all.take(i + 1).last() == parts@[i as int]@);
        }
        out.append(parts[i].as_str());
        out.append("\n");
        i += 1;
    }
    assert(all.take(i as int) =~= all);
    out
}

} // verus!


