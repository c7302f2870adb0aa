//! Resolving a transcript tree against the command tree: a greedy walk that
//! never goes back to an earlier level.

use crate::commands::{CommandIndex, EntryKind};
use crate::transcript::{cell_view, level_view, texts_of, TranscriptTree};
use vstd::prelude::*;
use vstd::string::*;

verus! {

/// The ending that marks a file as a script.
pub open spec fn script_extension() -> Seq<char> {
    ".lua"@
}

/// What is between two segments of a rendered path.
pub open spec fn separator() -> Seq<char> {
    "/"@
}

/// The name of the script file of the command word `word`.
pub open spec fn script_name(word: Seq<char>) -> Seq<char> {
    word + script_extension()
}

/// What the command tree holds for one candidate word in one directory.
#[derive(Clone, Copy, Debug, PartialEq, Eq, Structural)]
pub enum Finding {
    /// The word names a directory.
    Directory,
    /// The word names something that is no directory.
    Stray,
    /// Nothing is named by the word, and the word with the script extension
    /// names a regular file.
    Script,
    /// Neither.
    Absent,
}

/// What the listing holds for `word` inside `dir`.
pub open spec fn finding_of(
    listing: Map<Seq<Seq<char>>, EntryKind>,
    dir: Seq<Seq<char>>,
    word: Seq<char>,
) -> Finding {
    if listing.contains_key(dir.push(word)) {
        if listing[dir.push(word)] == EntryKind::Directory {
            Finding::Directory
        } else {
            Finding::Stray
        }
    } else if listing.contains_key(dir.push(script_name(word))) && listing[dir.push(
        script_name(word),
    )] == EntryKind::File {
        Finding::Script
    } else {
        Finding::Absent
    }
}

/// How the search leaves one level.
pub enum Step {
    /// Into the directory of this word.
    Descend { word: Seq<char> },
    /// With the script of this word.
    Run { word: Seq<char> },
    /// Stopped by this word, which names something that is no directory.
    Blocked { word: Seq<char> },
    /// With nothing: no candidate names anything.
    Exhausted,
}

/// How the search leaves `level` inside `dir`, trying the candidates from
/// `rank` on in order: the first candidate that names anything decides.
pub open spec fn scan_level(
    listing: Map<Seq<Seq<char>>, EntryKind>,
    level: Seq<Option<Seq<char>>>,
    dir: Seq<Seq<char>>,
    rank: int,
) -> Step
    decreases level.len() - rank,
{
    if rank < 0 || rank >= level.len() {
        Step::Exhausted
    } else {
        match level[rank] {
            None => scan_level(listing, level, dir, rank + 1),
            Some(word) => match finding_of(listing, dir, word) {
                Finding::Directory => Step::Descend { word },
                Finding::Stray => Step::Blocked { word },
                Finding::Script => Step::Run { word },
                Finding::Absent => scan_level(listing, level, dir, rank + 1),
            },
        }
    }
}

/// The words of a level, in order of rank, cells without a word left out.
pub open spec fn present(level: Seq<Option<Seq<char>>>) -> Seq<Seq<char>>
    decreases level.len(),
{
    if level.len() == 0 {
        Seq::empty()
    } else {
        present(level.drop_last()) + match level.last() {
            Some(word) => seq![word],
            None => Seq::empty(),
        }
    }
}

/// One argument slot for each level from `from` on: the words of that level.
pub open spec fn slots_from(grid: Seq<Seq<Option<Seq<char>>>>, from: int) -> Seq<Seq<Seq<char>>> {
    Seq::new((grid.len() - from) as nat, |k: int| present(grid[from + k]))
}

/// How a resolution ends.
pub enum Outcome {
    /// With a script, given by its segments below the root, and the argument
    /// slots of the levels after it.
    Found { script: Seq<Seq<char>>, slots: Seq<Seq<Seq<char>>> },
    /// With no command.
    NotFound,
    /// At something in the command tree that is neither directory nor script.
    Malformed { path: Seq<Seq<char>> },
}

/// The outcome of the search from the level `depth` on, standing in `dir`.
pub open spec fn resolve_from(
    listing: Map<Seq<Seq<char>>, EntryKind>,
    grid: Seq<Seq<Option<Seq<char>>>>,
    depth: int,
    dir: Seq<Seq<char>>,
) -> Outcome
    decreases grid.len() - depth,
{
    if depth < 0 || depth >= grid.len() {
        Outcome::NotFound
    } else {
        match scan_level(listing, grid[depth], dir, 0) {
            Step::Descend { word } => resolve_from(listing, grid, depth + 1, dir.push(word)),
            Step::Run { word } => Outcome::Found {
                script: dir.push(script_name(word)),
                slots: slots_from(grid, depth + 1),
            },
            Step::Blocked { word } => Outcome::Malformed { path: dir.push(word) },
            Step::Exhausted => Outcome::NotFound,
        }
    }
}

/// The outcome of resolving `grid` against `listing`.
pub open spec fn resolution_of(
    listing: Map<Seq<Seq<char>>, EntryKind>,
    grid: Seq<Seq<Option<Seq<char>>>>,
) -> Outcome {
    resolve_from(listing, grid, 0, Seq::empty())
}

/// The root followed by each segment, with a separator before each segment.
pub open spec fn path_text(root: Seq<char>, segments: Seq<Seq<char>>) -> Seq<char>
    decreases segments.len(),
{
    if segments.len() == 0 {
        root
    } else {
        path_text(root, segments.drop_last()) + separator() + segments.last()
    }
}

/// The texts of the candidates of each slot.
pub open spec fn slots_view(slots: Seq<Vec<String>>) -> Seq<Seq<Seq<char>>> {
    Seq::new(slots.len(), |k: int| texts_of(slots[k]@))
}

/// Renders a path below `root` as text.
pub fn render_path(root: &String, segments: &Vec<String>) -> (text: String)
    ensures
        text@ == path_text(root@, texts_of(segments@)),
{
    let mut text = root.clone();
    let ghost all = texts_of(segments@);
    let mut i: usize = 0;
    while i < segments.len()
        invariant
            i <= segments.len(),
            all == texts_of(segments@),
            text@ == path_text(root@, all.take(i as int)),
        decreases segments.len() - i,
    {
        assert(all.take(i + 1).drop_last() =~= all.take(i as int));
        text.append("/");
        text.append(segments[i].as_str());
        i = i + 1;
    }
    assert(all.take(i as int) =~= all);
    text
}

/// A command that was found: its script, and for each level of the
/// transcript after the match the words heard there.
pub struct ResolvedCommand {
    root: String,
    script: Vec<String>,
    slots: Vec<Vec<String>>,
}

impl ResolvedCommand {
    /// The name of the root directory of the command tree.
    pub closed spec fn root_text(&self) -> Seq<char> {
        self.root@
    }

    /// The segments of the script below the root, the file name last.
    pub closed spec fn script_segments(&self) -> Seq<Seq<char>> {
        texts_of(self.script@)
    }

    /// The argument slots, each with its candidates in order of rank.
    pub closed spec fn slot_texts(&self) -> Seq<Seq<Seq<char>>> {
        slots_view(self.slots@)
    }

    /// Every slot holds at least one candidate.
    #[verifier::type_invariant]
    pub open spec fn wf(&self) -> bool {
        forall|k: int| 0 <= k < self.slot_texts().len() ==> (#[trigger] self.slot_texts()[k]).len() > 0
    }

    /// The path of the script, from the root of the command tree.
    pub fn path(&self) -> (text: String)
        ensures
            text@ == path_text(self.root_text(), self.script_segments()),
    {
        render_path(&self.root, &self.script)
    }

    /// The segments of the script below the root, the file name last.
    pub fn script(&self) -> (segments: &Vec<String>)
        ensures
            texts_of(segments@) == self.script_segments(),
    {
        &self.script
    }

    /// For each slot all of its candidates, in order of rank.
    pub fn raw_arguments(&self) -> (slots: &Vec<Vec<String>>)
        ensures
            slots_view(slots@) == self.slot_texts(),
    {
        &self.slots
    }

    /// For each slot its first candidate: the word of the most confident
    /// hypothesis that has one there.
    pub fn arguments(&self) -> (words: Vec<String>)
        ensures
            words@.len() == self.slot_texts().len(),
            forall|k: int|
                0 <= k < words@.len() ==> (#[trigger] words@[k])@ == self.slot_texts()[k][0],
    {
        proof {
            use_type_invariant(self);
        }
        let mut words: Vec<String> = Vec::new();
        let mut k: usize = 0;
        while k < self.slots.len()
            invariant
                k <= self.slots.len(),
                self.wf(),
                words@.len() == k,
                forall|j: int| 0 <= j < k ==> (#[trigger] words@[j])@ == self.slot_texts()[j][0],
            decreases self.slots.len() - k,
        {
            assert(self.slot_texts()[k as int].len() > 0);
            words.push(self.slots[k][0].clone());
            k = k + 1;
        }
        words
    }
}

/// Why no command was resolved.
pub enum ResolveError {
    /// No candidate at some level names a directory or a script, or the
    /// transcript ran out before a script was reached.
    NotFound,
    /// A candidate names something in the command tree that is no directory;
    /// `path` holds its segments below the root.
    Malformed { path: Vec<String> },
}

/// The outcome that a result of `resolve` stands for.
pub open spec fn outcome_of(result: Result<ResolvedCommand, ResolveError>) -> Outcome {
    match result {
        Ok(command) => Outcome::Found {
            script: command.script_segments(),
            slots: command.slot_texts(),
        },
        Err(ResolveError::NotFound) => Outcome::NotFound,
        Err(ResolveError::Malformed { path }) => Outcome::Malformed { path: texts_of(path@) },
    }
}

/// How the search leaves one level, with the word that decided.
enum Decision {
    Descend(String),
    Run(String),
    Blocked(String),
    Exhausted,
}

impl Decision {
    spec fn step(self) -> Step {
        match self {
            Decision::Descend(word) => Step::Descend { word: word@ },
            Decision::Run(word) => Step::Run { word: word@ },
            Decision::Blocked(word) => Step::Blocked { word: word@ },
            Decision::Exhausted => Step::Exhausted,
        }
    }
}

/// What the listing holds for the candidate `word` inside `dir`: the word
/// itself is looked up first, and its script only where the word names
/// nothing.
pub fn probe(index: &CommandIndex, dir: &Vec<String>, word: &String) -> (finding: Finding)
    ensures
        finding == finding_of(index@, texts_of(dir@), word@),
{
    match index.lookup(dir, word) {
        Some(EntryKind::Directory) => Finding::Directory,
        Some(_) => Finding::Stray,
        None => {
            let file = word.clone().concat(".lua");
            match index.lookup(dir, &file) {
                Some(EntryKind::File) => Finding::Script,
                _ => Finding::Absent,
            }
        },
    }
}

/// Tries the candidates of one level in order of rank.
fn scan(index: &CommandIndex, dir: &Vec<String>, level: &Vec<Option<String>>) -> (decision:
    Decision)
    ensures
        decision.step() == scan_level(index@, level_view(level@), texts_of(dir@), 0),
{
    let ghost cells = level_view(level@);
    let mut rank: usize = 0;
    while rank < level.len()
        invariant
            rank <= level.len(),
            cells == level_view(level@),
            scan_level(index@, cells, texts_of(dir@), 0) == scan_level(
                index@,
                cells,
                texts_of(dir@),
                rank as int,
            ),
        decreases level.len() - rank,
    {
        match &level[rank] {
            Some(word) => {
                match probe(index, dir, word) {
                    Finding::Directory => {
                        return Decision::Descend(word.clone());
                    },
                    Finding::Stray => {
                        return Decision::Blocked(word.clone());
                    },
                    Finding::Script => {
                        return Decision::Run(word.clone());
                    },
                    Finding::Absent => {},
                }
            },
            None => {},
        }
        rank = rank + 1;
    }
    Decision::Exhausted
}

/// The words of one level, in order of rank.
fn present_words(level: &Vec<Option<String>>) -> (words: Vec<String>)
    ensures
        texts_of(words@) == present(level_view(level@)),
{
    let ghost cells = level_view(level@);
    let mut words: Vec<String> = Vec::new();
    let mut rank: usize = 0;
    while rank < level.len()
        invariant
            rank <= level.len(),
            cells == level_view(level@),
            texts_of(words@) == present(cells.take(rank as int)),
        decreases level.len() - rank,
    {
        assert(cells.take(rank + 1).drop_last() =~= cells.take(rank as int));
        match &level[rank] {
            Some(word) => {
                words.push(word.clone());
            },
            None => {},
        }
        rank = rank + 1;
    }
    assert(cells.take(rank as int) =~= cells);
    words
}

/// The argument slots of the levels from `from` on.
fn collect_slots(tree: &TranscriptTree, from: usize) -> (slots: Vec<Vec<String>>)
    requires
        from <= tree@.len(),
    ensures
        slots_view(slots@) == slots_from(tree@, from as int),
{
    let mut slots: Vec<Vec<String>> = Vec::new();
    let mut depth: usize = from;
    while depth < tree.depth()
        invariant
            from <= depth <= tree@.len(),
            slots@.len() == depth - from,
            forall|k: int|
                0 <= k < depth - from ==> texts_of((#[trigger] slots@[k])@) == present(
                    tree@[from + k],
                ),
        decreases tree@.len() - depth,
    {
        match tree.level(depth) {
            Some(level) => {
                slots.push(present_words(level));
            },
            None => {},
        }
        depth = depth + 1;
    }
    slots
}

/// A transcript without levels resolves to no command, whatever the command
/// tree holds.
pub proof fn lemma_empty_grid_is_not_found(listing: Map<Seq<Seq<char>>, EntryKind>)
    ensures
        resolution_of(listing, Seq::empty()) == Outcome::NotFound,
{
}

/// A level that holds a word has a word among its present ones.
pub proof fn lemma_present_has_word(level: Seq<Option<Seq<char>>>, rank: int)
    requires
        0 <= rank < level.len(),
        level[rank] is Some,
    ensures
        present(level).len() > 0,
    decreases level.len(),
{
    if rank < level.len() - 1 {
        lemma_present_has_word(level.drop_last(), rank);
    }
}

/// A script is found only at some level `d` of the transcript, below `d`
/// directories; the command then has one argument slot for each level after
/// `d` and none for the levels up to it, and each slot holds the words of its
/// level in order of rank, repeated where they repeat.
pub proof fn lemma_found_slots(
    listing: Map<Seq<Seq<char>>, EntryKind>,
    grid: Seq<Seq<Option<Seq<char>>>>,
    depth: int,
    dir: Seq<Seq<char>>,
)
    requires
        0 <= depth,
    ensures
        resolve_from(listing, grid, depth, dir) matches Outcome::Found { script, slots } ==> {
            &&& dir.len() < script.len()
            &&& depth - dir.len() + script.len() <= grid.len()
            &&& slots.len() == grid.len() - (depth - dir.len() + script.len())
            &&& forall|k: int|
                0 <= k < slots.len() ==> #[trigger] slots[k] == present(
                    grid[depth - dir.len() + script.len() + k],
                )
        },
    decreases grid.len() - depth,
{
    if depth < grid.len() {
        match scan_level(listing, grid[depth], dir, 0) {
            Step::Descend { word } => {
                lemma_found_slots(listing, grid, depth + 1, dir.push(word));
            },
            _ => {},
        }
    }
}

/// Resolves the transcript against the command tree. Level by level, the
/// candidates are tried in order of rank: the first that names a directory
/// is entered; one that names something else stops the search as malformed;
/// one whose script file exists ends it with that script and the words of
/// all later levels as argument slots. A level where no candidate names
/// anything ends the search without a command, and so does running out of
/// levels; earlier levels are never tried again.
pub fn resolve(tree: &TranscriptTree, index: &CommandIndex) -> (result: Result<
    ResolvedCommand,
    ResolveError,
>)
    ensures
        outcome_of(result) == resolution_of(index@, tree@),
        result matches Ok(command) ==> {
            &&& command.root_text() == index.root_text()
            &&& 0 < command.script_segments().len() <= tree@.len()
            &&& command.slot_texts().len() == tree@.len() - command.script_segments().len()
            &&& forall|k: int|
                0 <= k < command.slot_texts().len() ==> #[trigger] command.slot_texts()[k]
                    == present(tree@[command.script_segments().len() + k])
            &&& command.wf()
        },
{
    proof {
        use_type_invariant(tree);
    }
    let mut dir: Vec<String> = Vec::new();
    let mut depth: usize = 0;
    assert(texts_of(dir@) =~= Seq::<Seq<char>>::empty());
    while depth < tree.depth()
        invariant
            depth <= tree@.len(),
            dir@.len() == depth,
            tree.wf(),
            resolution_of(index@, tree@) == resolve_from(
                index@,
                tree@,
                depth as int,
                texts_of(dir@),
            ),
        decreases tree@.len() - depth,
    {
        let ghost here = texts_of(dir@);
        match tree.level(depth) {
            Some(level) => {
                match scan(index, &dir, level) {
                    Decision::Descend(word) => {
                        dir.push(word);
                        assert(texts_of(dir@) =~= here.push(word@));
                    },
                    Decision::Run(word) => {
                        let file = word.concat(".lua");
                        dir.push(file);
                        assert(texts_of(dir@) =~= here.push(script_name(word@)));
                        let slots = collect_slots(tree, depth + 1);
                        proof {
                            lemma_found_slots(index@, tree@, 0, Seq::empty());
                            assert forall|k: int| 0 <= k < slots@.len() implies (
                            #[trigger] slots_view(slots@)[k]).len() > 0 by {
                                let level = tree@[depth + 1 + k];
                                let rank = choose|rank: int|
                                    0 <= rank < tree.rank_count() && (#[trigger] level[rank])
                                        is Some;
                                lemma_present_has_word(level, rank);
                            }
                        }
                        return Ok(ResolvedCommand { root: index.root().clone(), script: dir, slots });
                    },
                    Decision::Blocked(word) => {
                        dir.push(word);
                        assert(texts_of(dir@) =~= here.push(word@));
                        return Err(ResolveError::Malformed { path: dir });
                    },
                    Decision::Exhausted => {
                        return Err(ResolveError::NotFound);
                    },
                }
            },
            None => {
                return Err(ResolveError::NotFound);
            },
        }
        depth = depth + 1;
    }
    Err(ResolveError::NotFound)
}

} // verus!
