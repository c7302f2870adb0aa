//! Transcripts: splitting a hypothesis into words, the wake word, and the
//! grid of candidate words by depth and rank.

use vstd::prelude::*;
use vstd::string::*;

verus! {

/// Whether `char::is_whitespace` holds of the character.
pub uninterp spec fn is_whitespace(c: char) -> bool;

/// Calls `char::is_whitespace`, which tells whether the character has the
/// Unicode property `White_Space`. The answer depends on the character alone;
/// the contract gives it the name `is_whitespace` and claims no more.
#[verifier::external_body]
fn char_is_whitespace(c: char) -> (space: bool)
    ensures
        space == is_whitespace(c),
{
    c.is_whitespace()
}

/// For each character of the text, whether it is whitespace.
pub open spec fn whitespace_of(text: Seq<char>) -> Seq<bool> {
    Seq::new(text.len(), |i: int| is_whitespace(text[i]))
}

/// The position `i` is marked as a gap between words.
pub open spec fn is_gap(gaps: Seq<bool>, i: int) -> bool {
    0 <= i < gaps.len() && gaps[i]
}

/// The word that `current` has grown into so far, if it holds anything.
pub open spec fn finished(current: Seq<char>) -> Seq<Seq<char>> {
    if current.len() > 0 {
        seq![current]
    } else {
        Seq::empty()
    }
}

/// The words of `text` from the position `from` on, where `current` is the
/// part of a word that was read just before `from`: a gap ends the word that
/// was growing, any other character is added to it.
pub open spec fn words_from(text: Seq<char>, gaps: Seq<bool>, from: int, current: Seq<char>) -> Seq<
    Seq<char>,
>
    decreases text.len() - from,
{
    if from < 0 || from >= text.len() {
        finished(current)
    } else if is_gap(gaps, from) {
        finished(current) + words_from(text, gaps, from + 1, Seq::empty())
    } else {
        words_from(text, gaps, from + 1, current.push(text[from]))
    }
}

/// The words of `text` where `gaps` marks the characters between words: its
/// maximal runs of unmarked characters, in order.
pub open spec fn split_by(text: Seq<char>, gaps: Seq<bool>) -> Seq<Seq<char>> {
    words_from(text, gaps, 0, Seq::empty())
}

/// The words of `text`: its maximal runs of characters that are not
/// whitespace, in order.
pub open spec fn words(text: Seq<char>) -> Seq<Seq<char>> {
    split_by(text, whitespace_of(text))
}

/// Every character of the text has the property.
pub open spec fn every(text: Seq<char>, property: spec_fn(char) -> bool) -> bool {
    forall|i: int| 0 <= i < text.len() ==> property(#[trigger] text[i])
}

/// The text holds no whitespace.
pub open spec fn is_solid(text: Seq<char>) -> bool {
    every(text, |c: char| !is_whitespace(c))
}

/// Every word is made of unmarked characters and holds at least one: where
/// all unmarked characters from `from` on and all of `current` have a
/// property, all characters of all words have it.
pub proof fn lemma_words_from_unmarked(
    text: Seq<char>,
    gaps: Seq<bool>,
    from: int,
    current: Seq<char>,
    property: spec_fn(char) -> bool,
)
    requires
        0 <= from,
        forall|i: int| from <= i < text.len() && !is_gap(gaps, i) ==> property(#[trigger] text[i]),
        every(current, property),
    ensures
        forall|k: int|
            0 <= k < words_from(text, gaps, from, current).len() ==> {
                &&& (#[trigger] words_from(text, gaps, from, current)[k]).len() > 0
                &&& every(words_from(text, gaps, from, current)[k], property)
            },
    decreases text.len() - from,
{
    let all = words_from(text, gaps, from, current);
    if from < text.len() {
        if is_gap(gaps, from) {
            let later = words_from(text, gaps, from + 1, Seq::empty());
            lemma_words_from_unmarked(text, gaps, from + 1, Seq::empty(), property);
            assert forall|k: int| 0 <= k < all.len() implies (#[trigger] all[k]).len() > 0
                && every(all[k], property) by {
                let lead = finished(current).len();
                if k >= lead {
                    assert(all[k] == later[k - lead]);
                }
            }
        } else {
            lemma_words_from_unmarked(text, gaps, from + 1, current.push(text[from]), property);
            assert(all == words_from(text, gaps, from + 1, current.push(text[from])));
        }
    } else {
        assert(all == finished(current));
    }
}

/// Every word of a text holds at least one character and no whitespace.
pub proof fn lemma_words_are_solid(text: Seq<char>)
    ensures
        forall|k: int|
            0 <= k < words(text).len() ==> {
                &&& (#[trigger] words(text)[k]).len() > 0
                &&& is_solid(words(text)[k])
            },
{
    lemma_words_from_unmarked(
        text,
        whitespace_of(text),
        0,
        Seq::empty(),
        |c: char| !is_whitespace(c),
    );
}

/// The texts of the strings, in order.
pub open spec fn texts_of(strings: Seq<String>) -> Seq<Seq<char>> {
    Seq::new(strings.len(), |i: int| strings[i]@)
}

/// Tells for each character of `text` whether it is whitespace.
pub fn whitespace_mask(text: &str) -> (mask: Vec<bool>)
    ensures
        mask@ == whitespace_of(text@),
{
    let mut mask: Vec<bool> = Vec::new();
    for c in it: text.chars()
        invariant
            it.seq() == text@,
            mask@ == whitespace_of(text@.take(it.index())),
    {
        mask.push(char_is_whitespace(c));
    }
    mask
}

/// Splits `text` into words at the characters that `gaps` marks: a marked
/// character belongs to no word and ends the word before it. Characters
/// beyond the end of `gaps` count as unmarked.
pub fn split_at_gaps(text: &str, gaps: &Vec<bool>) -> (out: Vec<String>)
    ensures
        texts_of(out@) == split_by(text@, gaps@),
{
    let n = text.unicode_len();
    let mut out: Vec<String> = Vec::new();
    let mut start: usize = 0;
    let mut i: usize = 0;
    assert(text@.subrange(0, 0) =~= Seq::<char>::empty());
    while i < n
        invariant
            start <= i <= n,
            n == text@.len(),
            split_by(text@, gaps@) == texts_of(out@) + words_from(
                text@,
                gaps@,
                i as int,
                text@.subrange(start as int, i as int),
            ),
        decreases n - i,
    {
        if i < gaps.len() && gaps[i] {
            if start < i {
                out.push(text.substring_char(start, i).to_owned());
            }
            start = i + 1;
            assert(text@.subrange(start as int, start as int) =~= Seq::<char>::empty());
        } else {
            assert(text@.subrange(start as int, i as int).push(text@[i as int])
                =~= text@.subrange(start as int, i + 1));
        }
        i = i + 1;
    }
    if start < n {
        out.push(text.substring_char(start, n).to_owned());
    }
    out
}

/// Splits `text` at whitespace into its words.
pub fn split_words(text: &str) -> (out: Vec<String>)
    ensures
        texts_of(out@) == words(text@),
{
    let gaps = whitespace_mask(text);
    split_at_gaps(text, &gaps)
}

/// The word that triggers command capture.
pub open spec fn wake_word() -> Seq<char> {
    "mega"@
}

/// Some hypothesis is the wake word, whole and in the same case.
pub open spec fn has_wake_word(hypotheses: Seq<Seq<char>>) -> bool {
    exists|rank: int| 0 <= rank < hypotheses.len() && #[trigger] hypotheses[rank] == wake_word()
}

/// Whether one of the hypotheses is exactly the wake word.
pub fn heard_wake_word(hypotheses: &Vec<String>) -> (heard: bool)
    ensures
        heard == has_wake_word(texts_of(hypotheses@)),
{
    let wake = "mega".to_owned();
    let mut rank: usize = 0;
    while rank < hypotheses.len()
        invariant
            rank <= hypotheses.len(),
            wake@ == wake_word(),
            forall|k: int| 0 <= k < rank ==> #[trigger] texts_of(hypotheses@)[k] != wake_word(),
        decreases hypotheses.len() - rank,
    {
        if hypotheses[rank] == wake {
            assert(texts_of(hypotheses@)[rank as int] == wake_word());
            return true;
        }
        rank = rank + 1;
    }
    false
}

/// The number of words of the longest hypothesis.
pub open spec fn depth_of(hypotheses: Seq<Seq<char>>) -> nat
    decreases hypotheses.len(),
{
    if hypotheses.len() == 0 {
        0
    } else {
        let earlier = depth_of(hypotheses.drop_last());
        let last = words(hypotheses.last()).len();
        if last > earlier {
            last
        } else {
            earlier
        }
    }
}

/// The word at position `depth` of the hypothesis of rank `rank`, if that
/// hypothesis is long enough.
pub open spec fn candidate_at(hypotheses: Seq<Seq<char>>, depth: int, rank: int) -> Option<
    Seq<char>,
> {
    let sentence = words(hypotheses[rank]);
    if 0 <= depth < sentence.len() {
        Some(sentence[depth])
    } else {
        None
    }
}

/// The grid of the hypotheses: one level for each word position up to the
/// longest hypothesis, and in each level one cell for each hypothesis, by
/// rank.
pub open spec fn grid_of(hypotheses: Seq<Seq<char>>) -> Seq<Seq<Option<Seq<char>>>> {
    Seq::new(
        depth_of(hypotheses),
        |depth: int| Seq::new(hypotheses.len(), |rank: int| candidate_at(hypotheses, depth, rank)),
    )
}

/// The text of a cell.
pub open spec fn cell_view(cell: Option<String>) -> Option<Seq<char>> {
    match cell {
        Some(word) => Some(word@),
        None => None,
    }
}

/// The texts of the cells of a level, by rank.
pub open spec fn level_view(level: Seq<Option<String>>) -> Seq<Option<Seq<char>>> {
    Seq::new(level.len(), |rank: int| cell_view(level[rank]))
}

/// The texts of the cells of all levels, by depth and rank.
pub open spec fn grid_view(levels: Seq<Vec<Option<String>>>) -> Seq<Seq<Option<Seq<char>>>> {
    Seq::new(levels.len(), |depth: int| level_view(levels[depth]@))
}

/// Every level has `ranks` cells and holds at least one word.
pub open spec fn grid_is_filled(grid: Seq<Seq<Option<Seq<char>>>>, ranks: nat) -> bool {
    forall|depth: int|
        0 <= depth < grid.len() ==> {
            &&& (#[trigger] grid[depth]).len() == ranks
            &&& exists|rank: int| 0 <= rank < ranks && (#[trigger] grid[depth][rank]) is Some
        }
}

/// No hypothesis has more words than the depth, and where the depth is not 0
/// some hypothesis has exactly that many.
pub proof fn lemma_depth_is_longest(hypotheses: Seq<Seq<char>>)
    ensures
        forall|rank: int|
            0 <= rank < hypotheses.len() ==> words(#[trigger] hypotheses[rank]).len() <= depth_of(
                hypotheses,
            ),
        depth_of(hypotheses) > 0 ==> exists|rank: int|
            0 <= rank < hypotheses.len() && words(#[trigger] hypotheses[rank]).len() == depth_of(
                hypotheses,
            ),
    decreases hypotheses.len(),
{
    if hypotheses.len() > 0 {
        let earlier = hypotheses.drop_last();
        lemma_depth_is_longest(earlier);
        assert forall|rank: int| 0 <= rank < hypotheses.len() implies words(
            #[trigger] hypotheses[rank],
        ).len() <= depth_of(hypotheses) by {
            if rank < earlier.len() {
                assert(earlier[rank] == hypotheses[rank]);
            }
        }
        if depth_of(hypotheses) > 0 && words(hypotheses.last()).len() <= depth_of(earlier) {
            let rank = choose|rank: int|
                0 <= rank < earlier.len() && words(#[trigger] earlier[rank]).len() == depth_of(
                    earlier,
                );
            assert(hypotheses[rank] == earlier[rank]);
        }
    }
}

/// No hypotheses give a grid without levels.
pub proof fn lemma_grid_of_nothing_is_empty()
    ensures
        grid_of(Seq::empty()).len() == 0,
{
}

/// The grid of any hypotheses has one cell per hypothesis in every level, and
/// a word in every level.
pub proof fn lemma_grid_is_filled(hypotheses: Seq<Seq<char>>)
    ensures
        grid_is_filled(grid_of(hypotheses), hypotheses.len()),
{
    lemma_depth_is_longest(hypotheses);
    let grid = grid_of(hypotheses);
    assert forall|depth: int| 0 <= depth < grid.len() implies {
        &&& (#[trigger] grid[depth]).len() == hypotheses.len()
        &&& exists|rank: int|
            0 <= rank < hypotheses.len() && (#[trigger] grid[depth][rank]) is Some
    } by {
        let longest = choose|rank: int|
            0 <= rank < hypotheses.len() && words(#[trigger] hypotheses[rank]).len() == depth_of(
                hypotheses,
            );
        assert(grid[depth][longest] is Some);
    }
}

/// The candidate words of one utterance, by depth and rank: level `d` holds,
/// for each hypothesis in order of confidence, its word at position `d`, or
/// nothing where that hypothesis is shorter.
pub struct TranscriptTree {
    levels: Vec<Vec<Option<String>>>,
    ranks: usize,
}

impl View for TranscriptTree {
    type V = Seq<Seq<Option<Seq<char>>>>;

    closed spec fn view(&self) -> Seq<Seq<Option<Seq<char>>>> {
        grid_view(self.levels@)
    }
}

impl TranscriptTree {
    /// The number of hypotheses the tree was built from.
    pub closed spec fn rank_count(&self) -> nat {
        self.ranks as nat
    }

    /// Every level has one cell per hypothesis and holds at least one word.
    #[verifier::type_invariant]
    pub open spec fn wf(&self) -> bool {
        grid_is_filled(self@, self.rank_count())
    }

    /// Builds the tree of a ranked list of hypotheses, most confident first.
    pub fn build(hypotheses: &Vec<String>) -> (tree: TranscriptTree)
        ensures
            tree@ == grid_of(texts_of(hypotheses@)),
            tree.rank_count() == hypotheses@.len(),
            tree.wf(),
    {
        let ghost texts = texts_of(hypotheses@);
        let ranks = hypotheses.len();
        let mut sentences: Vec<Vec<String>> = Vec::new();
        let mut depth: usize = 0;
        let mut rank: usize = 0;
        while rank < ranks
            invariant
                rank <= ranks,
                ranks == hypotheses@.len(),
                texts == texts_of(hypotheses@),
                sentences@.len() == rank,
                forall|k: int|
                    0 <= k < rank ==> texts_of((#[trigger] sentences@[k])@) == words(texts[k]),
                depth == depth_of(texts.take(rank as int)),
            decreases ranks - rank,
        {
            let sentence = split_words(hypotheses[rank].as_str());
            assert(texts.take(rank + 1).drop_last() =~= texts.take(rank as int));
            if sentence.len() > depth {
                depth = sentence.len();
            }
            sentences.push(sentence);
            rank = rank + 1;
        }
        assert(texts.take(ranks as int) =~= texts);
        let mut levels: Vec<Vec<Option<String>>> = Vec::new();
        let mut level: usize = 0;
        while level < depth
            invariant
                level <= depth,
                depth == depth_of(texts),
                ranks == texts.len(),
                sentences@.len() == ranks,
                forall|k: int|
                    0 <= k < ranks ==> texts_of((#[trigger] sentences@[k])@) == words(texts[k]),
                levels@.len() == level,
                forall|d: int|
                    0 <= d < level ==> level_view((#[trigger] levels@[d])@) == grid_of(texts)[d],
            decreases depth - level,
        {
            let mut cells: Vec<Option<String>> = Vec::new();
            let mut rank: usize = 0;
            while rank < ranks
                invariant
                    rank <= ranks,
                    level < depth,
                    ranks == texts.len(),
                    sentences@.len() == ranks,
                    forall|k: int|
                        0 <= k < ranks ==> texts_of((#[trigger] sentences@[k])@) == words(
                            texts[k],
                        ),
                    cells@.len() == rank,
                    forall|k: int|
                        0 <= k < rank ==> cell_view(#[trigger] cells@[k]) == candidate_at(
                            texts,
                            level as int,
                            k,
                        ),
                decreases ranks - rank,
            {
                let sentence = &sentences[rank];
                if level < sentence.len() {
                    cells.push(Some(sentence[level].clone()));
                } else {
                    cells.push(None);
                }
                rank = rank + 1;
            }
            levels.push(cells);
            level = level + 1;
        }
        proof {
            lemma_grid_is_filled(texts);
        }
        TranscriptTree { levels, ranks }
    }

    /// The number of levels: the word count of the longest hypothesis.
    pub fn depth(&self) -> (depth: usize)
        ensures
            depth == self@.len(),
    {
        self.levels.len()
    }

    /// The number of hypotheses the tree was built from.
    pub fn ranks(&self) -> (ranks: usize)
        ensures
            ranks == self.rank_count(),
    {
        self.ranks
    }

    /// The cells of the level at `depth`, by rank, if the tree is that deep.
    pub fn level(&self, depth: usize) -> (cells: Option<&Vec<Option<String>>>)
        ensures
            cells is Some <==> depth < self@.len(),
            cells matches Some(found) ==> level_view(found@) == self@[depth as int],
    {
        if depth < self.levels.len() {
            Some(&self.levels[depth])
        } else {
            None
        }
    }
}

} // verus!
