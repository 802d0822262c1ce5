//! Definition maps: how they are built, how they follow the files, and what they lead to.

use vstd::prelude::*;

use crate::changes::ChangeType;
use crate::engine::{lemma_filtered, CodeIntelEngine};
use crate::pullin::{
    chunk_end, next_chunk, stamp_texts, DefinitionPlan, FileStamp, DEFINITION_BUILD_PROGRESS_FILES,
};
use crate::registry::{has_path, RegisteredText};
use crate::text::{copy_texts, has_text, same_text, texts};

verus! {

/// A build under way. A map that exists is refreshed file by file; one that does not is
/// built whole.
#[derive(Debug)]
pub struct DefinitionBuild {
    pub refreshing: bool,
    /// The files to parse, in order, and the paths to retract.
    pub files: Vec<String>,
    pub removed: Vec<String>,
    pub opened: bool,
    pub retracted: usize,
    pub parsed: usize,
    pub next_report: usize,
    /// Whether a new map is in place, once the build is over.
    pub outcome: Option<bool>,
}

pub struct BuildText {
    pub refreshing: bool,
    pub files: Seq<Seq<char>>,
    pub removed: Seq<Seq<char>>,
    pub opened: bool,
    pub retracted: nat,
    pub parsed: nat,
    pub outcome: Option<bool>,
}

impl View for DefinitionBuild {
    type V = BuildText;

    open spec fn view(&self) -> BuildText {
        BuildText {
            refreshing: self.refreshing,
            files: texts(self.files@),
            removed: texts(self.removed@),
            opened: self.opened,
            retracted: self.retracted as nat,
            parsed: self.parsed as nat,
            outcome: self.outcome,
        }
    }
}

/// What a build does next.
#[derive(Debug)]
pub enum BuildAction {
    /// Open the map as it is, or begin a new one.
    Open { fresh: bool },
    /// Take a file that is gone out of the map.
    Retract(String),
    /// Parse these files and write each one's definitions, in place of older ones where
    /// `replace` is set.
    Parse { files: Vec<String>, replace: bool },
    Commit,
    /// The build is over.
    Stop { built: bool },
}

pub enum BuildActionText {
    Open { fresh: bool },
    Retract(Seq<char>),
    Parse { files: Seq<Seq<char>>, replace: bool },
    Commit,
    Stop { built: bool },
}

impl View for BuildAction {
    type V = BuildActionText;

    open spec fn view(&self) -> BuildActionText {
        match self {
            BuildAction::Open { fresh } => BuildActionText::Open { fresh: *fresh },
            BuildAction::Retract(p) => BuildActionText::Retract(p@),
            BuildAction::Parse { files, replace } => BuildActionText::Parse {
                files: texts(files@),
                replace: *replace,
            },
            BuildAction::Commit => BuildActionText::Commit,
            BuildAction::Stop { built } => BuildActionText::Stop { built: *built },
        }
    }
}

impl BuildText {
    pub open spec fn wf(self) -> bool {
        self.retracted <= self.removed.len() && self.parsed <= self.files.len()
    }

    /// Files that are gone are retracted first, then the rest is parsed batch by batch.
    pub open spec fn action(self) -> BuildActionText {
        match self.outcome {
            Some(built) => BuildActionText::Stop { built },
            None => if !self.opened {
                BuildActionText::Open { fresh: !self.refreshing }
            } else if self.retracted < self.removed.len() {
                BuildActionText::Retract(self.removed[self.retracted as int])
            } else if self.parsed < self.files.len() {
                BuildActionText::Parse {
                    files: self.files.subrange(
                        self.parsed as int,
                        chunk_end(self.parsed as int, self.files.len() as int),
                    ),
                    replace: self.refreshing,
                }
            } else {
                BuildActionText::Commit
            },
        }
    }

    /// The build after its action went well or not. It ends with the first failure, and then
    /// no new map is in place.
    pub open spec fn after(self, ok: bool) -> BuildText {
        if self.outcome is Some {
            self
        } else if !ok {
            BuildText { outcome: Some(false), ..self }
        } else if !self.opened {
            BuildText { opened: true, ..self }
        } else if self.retracted < self.removed.len() {
            BuildText { retracted: self.retracted + 1, ..self }
        } else if self.parsed < self.files.len() {
            BuildText {
                parsed: chunk_end(self.parsed as int, self.files.len() as int) as nat,
                ..self
            }
        } else {
            BuildText { outcome: Some(true), ..self }
        }
    }

    /// How far a build is from its end.
    pub open spec fn distance(self) -> nat {
        if self.outcome is Some {
            0
        } else {
            (1 + (if self.opened {
                0int
            } else {
                1int
            }) + (self.removed.len() - self.retracted) + (self.files.len() - self.parsed)) as nat
        }
    }
}

impl DefinitionBuild {
    /// Begins a build. There is nothing to do where the map is up to date.
    pub fn start(refreshing: bool, plan: DefinitionPlan) -> (r: DefinitionBuild)
        ensures
            r@.wf(),
            r@ == (BuildText {
                refreshing,
                files: texts(plan.files@),
                removed: texts(plan.removed@),
                opened: false,
                retracted: 0,
                parsed: 0,
                outcome: if plan.up_to_date {
                    Some(false)
                } else {
                    None
                },
            }),
            r.next_report == DEFINITION_BUILD_PROGRESS_FILES,
    {
        let outcome = if plan.up_to_date {
            Some(false)
        } else {
            None
        };
        DefinitionBuild {
            refreshing,
            files: plan.files,
            removed: plan.removed,
            opened: false,
            retracted: 0,
            parsed: 0,
            next_report: DEFINITION_BUILD_PROGRESS_FILES,
            outcome,
        }
    }

    /// What the build does next.
    pub fn action(&self) -> (r: BuildAction)
        requires
            self@.wf(),
        ensures
            r@ == self@.action(),
    {
        match self.outcome {
            Some(built) => BuildAction::Stop { built },
            None => if !self.opened {
                BuildAction::Open { fresh: !self.refreshing }
            } else if self.retracted < self.removed.len() {
                BuildAction::Retract(self.removed[self.retracted].clone())
            } else if self.parsed < self.files.len() {
                let (end, report, next) = next_chunk(
                    self.parsed,
                    self.files.len(),
                    self.refreshing,
                    self.next_report,
                );
                let ghost all = texts(self.files@);
                let mut files: Vec<String> = Vec::new();
                let mut i: usize = self.parsed;
                proof {
                    assert(texts(files@) =~= all.subrange(i as int, i as int));
                }
                while i < end
                    invariant
                        self.parsed <= i <= end <= self.files@.len(),
                        all == texts(self.files@),
                        texts(files@) == all.subrange(self.parsed as int, i as int),
                    decreases end - i,
                {
                    let file = self.files[i].clone();
                    proof {
                        assert(texts(files@.push(file)) =~= texts(files@).push(file@));
                        assert(all.subrange(self.parsed as int, i + 1) =~= all.subrange(
                            self.parsed as int,
                            i as int,
                        ).push(all[i as int]));
                    }
                    files.push(file);
                    i = i + 1;
                }
                BuildAction::Parse { files, replace: self.refreshing }
            } else {
                BuildAction::Commit
            },
        }
    }

    /// Takes in how the action went, and tells whether progress is to be reported.
    pub fn advance(&mut self, ok: bool) -> (r: bool)
        requires
            old(self)@.wf(),
        ensures
            final(self)@.wf(),
            final(self)@ == old(self)@.after(ok),
            r == (ok && old(self)@.action() is Parse && !old(self).refreshing && chunk_end(
                old(self)@.parsed as int,
                old(self)@.files.len() as int,
            ) >= old(self).next_report),
            final(self).next_report == (if !r {
                old(self).next_report
            } else if old(self).next_report <= usize::MAX - DEFINITION_BUILD_PROGRESS_FILES {
                (old(self).next_report + DEFINITION_BUILD_PROGRESS_FILES) as usize
            } else {
                usize::MAX
            }),
    {
        if self.outcome.is_some() {
            return false;
        }
        if !ok {
            self.outcome = Some(false);
            return false;
        }
        if !self.opened {
            self.opened = true;
            return false;
        }
        if self.retracted < self.removed.len() {
            self.retracted = self.retracted + 1;
            return false;
        }
        if self.parsed < self.files.len() {
            let (end, report, next) = next_chunk(
                self.parsed,
                self.files.len(),
                self.refreshing,
                self.next_report,
            );
            self.parsed = end;
            self.next_report = next;
            return report;
        }
        self.outcome = Some(true);
        false
    }
}

/// Every step that goes well brings the build nearer to its end.
pub proof fn law_a_build_comes_to_an_end(b: BuildText)
    requires
        b.wf(),
        b.outcome is None,
    ensures
        b.after(true).distance() < b.distance(),
        b.after(true).wf(),
{
}

/// A new map is in place only where everything was retracted, parsed and committed.
pub proof fn law_a_built_map_is_whole(b: BuildText, ok: bool)
    requires
        b.wf(),
        b.outcome is None,
        b.after(ok).outcome == Some(true),
    ensures
        ok,
        b.action() is Commit,
        b.retracted == b.removed.len(),
        b.parsed == b.files.len(),
{
}

// ---- the map ----

/// What a file defines, and the state it was in.
#[derive(Debug)]
pub struct FileDefinitions {
    pub stamp: FileStamp,
    pub names: Vec<String>,
}

pub struct FoundText {
    pub stamp: FileStamp,
    pub names: Seq<Seq<char>>,
}

impl View for FileDefinitions {
    type V = FoundText;

    open spec fn view(&self) -> FoundText {
        FoundText { stamp: self.stamp, names: texts(self.names@) }
    }
}

pub open spec fn found_text(o: Option<FileDefinitions>) -> Option<FoundText> {
    match o {
        Some(f) => Some(f@),
        None => None,
    }
}

pub fn copy_found(f: &FileDefinitions) -> (r: FileDefinitions)
    ensures
        r@ == f@,
{
    FileDefinitions { stamp: f.stamp, names: copy_texts(&f.names) }
}

/// What a change does to the definition map of a repository.
#[derive(Debug)]
pub enum MapEdit {
    Leave,
    Remove { repo: String, relative_path: String },
    Replace { repo: String, relative_path: String, found: FileDefinitions },
}

pub enum MapEditText {
    Leave,
    Remove { repo: Seq<char>, relative_path: Seq<char> },
    Replace { repo: Seq<char>, relative_path: Seq<char>, found: FoundText },
}

impl View for MapEdit {
    type V = MapEditText;

    open spec fn view(&self) -> MapEditText {
        match self {
            MapEdit::Leave => MapEditText::Leave,
            MapEdit::Remove { repo, relative_path } => MapEditText::Remove {
                repo: repo@,
                relative_path: relative_path@,
            },
            MapEdit::Replace { repo, relative_path, found } => MapEditText::Replace {
                repo: repo@,
                relative_path: relative_path@,
                found: found@,
            },
        }
    }
}

/// A file that is gone leaves the map, one that can be read and parsed is entered anew, and
/// one that cannot stays as it stands there.
pub open spec fn map_edit(
    repo: Seq<char>,
    relative_path: Seq<char>,
    change: ChangeType,
    found: Option<FoundText>,
) -> MapEditText {
    if change == ChangeType::Deleted {
        MapEditText::Remove { repo, relative_path }
    } else {
        match found {
            Some(found) => MapEditText::Replace { repo, relative_path, found },
            None => MapEditText::Leave,
        }
    }
}

/// Keeps a repository's definition map in step with one changed file. `found` is what the
/// file defines now, where it can be read and parsed.
pub fn update_definition_map(
    repo: &str,
    relative_path: &str,
    change: ChangeType,
    found: &Option<FileDefinitions>,
) -> (r: MapEdit)
    ensures
        r@ == map_edit(repo@, relative_path@, change, found_text(*found)),
{
    if change == ChangeType::Deleted {
        MapEdit::Remove { repo: repo.to_owned(), relative_path: relative_path.to_owned() }
    } else {
        match found {
            Some(f) => MapEdit::Replace {
                repo: repo.to_owned(),
                relative_path: relative_path.to_owned(),
                found: copy_found(f),
            },
            None => MapEdit::Leave,
        }
    }
}

/// A file of the map.
#[derive(Debug)]
pub struct MappedFile {
    pub relative_path: String,
    pub found: FileDefinitions,
}

pub struct MappedText {
    pub relative_path: Seq<char>,
    pub found: FoundText,
}

impl View for MappedFile {
    type V = MappedText;

    open spec fn view(&self) -> MappedText {
        MappedText { relative_path: self.relative_path@, found: self.found@ }
    }
}

pub open spec fn mapped_texts(v: Seq<MappedFile>) -> Seq<MappedText> {
    v.map_values(|f: MappedFile| f@)
}

/// Where the names of a repository are defined. Until a build is committed there is no map.
#[derive(Debug)]
pub struct DefinitionMap {
    pub committed: bool,
    pub files: Vec<MappedFile>,
}

#[verifier::ext_equal]
pub struct MapText {
    pub committed: bool,
    pub files: Seq<MappedText>,
}

impl View for DefinitionMap {
    type V = MapText;

    open spec fn view(&self) -> MapText {
        MapText { committed: self.committed, files: mapped_texts(self.files@) }
    }
}

pub open spec fn without_mapped(files: Seq<MappedText>, rel: Seq<char>) -> Seq<MappedText> {
    files.filter(|f: MappedText| f.relative_path != rel)
}

pub open spec fn with_mapped(files: Seq<MappedText>, rel: Seq<char>, found: FoundText) -> Seq<
    MappedText,
> {
    without_mapped(files, rel).push(MappedText { relative_path: rel, found })
}

/// Files of the map that define one of some names.
pub open spec fn defines_any(f: MappedText, wanted: Seq<Seq<char>>) -> bool {
    exists|i: int| 0 <= i < f.found.names.len() && wanted.contains(#[trigger] f.found.names[i])
}

impl MapText {
    /// The map after an edit. Where there is none, there is none to edit.
    pub open spec fn edited(self, edit: MapEditText) -> MapText {
        if !self.committed {
            self
        } else {
            match edit {
                MapEditText::Leave => self,
                MapEditText::Remove { relative_path, .. } => MapText {
                    files: without_mapped(self.files, relative_path),
                    ..self
                },
                MapEditText::Replace { relative_path, found, .. } => MapText {
                    files: with_mapped(self.files, relative_path, found),
                    ..self
                },
            }
        }
    }

    /// The files that define one of some names, where there is a map.
    pub open spec fn defining(self, wanted: Seq<Seq<char>>) -> Seq<Seq<char>> {
        if self.committed {
            self.files.filter(|f: MappedText| defines_any(f, wanted)).map_values(
                |f: MappedText| f.relative_path,
            )
        } else {
            Seq::empty()
        }
    }
}

impl DefinitionMap {
    /// No map.
    pub fn new() -> (r: DefinitionMap)
        ensures
            r@ == (MapText { committed: false, files: Seq::empty() }),
    {
        let r = DefinitionMap { committed: false, files: Vec::new() };
        proof {
            assert(r@.files =~= Seq::<MappedText>::empty());
        }
        r
    }

    /// The files of the map, with the state each was in.
    pub fn stamps(&self) -> (r: Vec<(String, FileStamp)>)
        ensures
            stamp_texts(r@) == self@.files.map_values(
                |f: MappedText| (f.relative_path, f.found.stamp),
            ),
    {
        let mut out: Vec<(String, FileStamp)> = Vec::new();
        let mut i: usize = 0;
        while i < self.files.len()
            invariant
                i <= self.files@.len(),
                out@.len() == i,
                forall|j: int|
                    0 <= j < i ==> (#[trigger] out@[j]).0@ == self.files@[j].relative_path@
                        && out@[j].1 == self.files@[j].found.stamp,
            decreases self.files@.len() - i,
        {
            out.push((self.files[i].relative_path.clone(), self.files[i].found.stamp));
            i = i + 1;
        }
        proof {
            assert(stamp_texts(out@) =~= self@.files.map_values(
                |f: MappedText| (f.relative_path, f.found.stamp),
            ));
        }
        out
    }

    /// Opens the map for a build: a fresh one begins empty, and is no map until it is
    /// committed.
    pub fn open_for_build(&mut self, fresh: bool)
        ensures
            final(self)@ == if fresh {
                MapText { committed: false, files: Seq::empty() }
            } else {
                old(self)@
            },
    {
        if fresh {
            self.committed = false;
            self.files = Vec::new();
            proof {
                assert(self@.files =~= Seq::<MappedText>::empty());
            }
        }
    }

    /// Takes a file out.
    pub fn retract(&mut self, rel: &str)
        ensures
            final(self)@ == (MapText {
                files: without_mapped(old(self)@.files, rel@),
                ..old(self)@
            }),
    {
        let ghost all = self@.files;
        let ghost keep = |f: MappedText| f.relative_path != rel@;
        let mut out: Vec<MappedFile> = Vec::new();
        let mut i: usize = 0;
        proof {
            reveal(Seq::filter);
            assert(mapped_texts(out@) =~= all.take(0).filter(keep));
        }
        while i < self.files.len()
            invariant
                i <= self.files@.len(),
                *self == *old(self),
                all == self@.files,
                keep == (|f: MappedText| f.relative_path != rel@),
                mapped_texts(out@) == all.take(i as int).filter(keep),
            decreases self.files@.len() - i,
        {
            proof {
                reveal(Seq::filter);
                assert(all.take(i + 1).drop_last() =~= all.take(i as int));
                assert(all.take(i + 1).last() == self.files@[i as int]@);
            }
            if !same_text(self.files[i].relative_path.as_str(), rel) {
                let item = MappedFile {
                    relative_path: self.files[i].relative_path.clone(),
                    found: copy_found(&self.files[i].found),
                };
                proof {
                    assert(mapped_texts(out@.push(item)) =~= mapped_texts(out@).push(item@));
                }
                out.push(item);
            }
            i = i + 1;
        }
        proof {
            assert(all.take(all.len() as int) =~= all);
        }
        self.files = out;
    }

    /// Enters what a file defines, in place of what stood there of it.
    pub fn enter(&mut self, rel: &str, found: FileDefinitions)
        ensures
            final(self)@ == (MapText {
                files: with_mapped(old(self)@.files, rel@, found@),
                ..old(self)@
            }),
    {
        self.retract(rel);
        let item = MappedFile { relative_path: rel.to_owned(), found };
        proof {
            assert(mapped_texts(self.files@.push(item)) =~= self@.files.push(item@));
        }
        self.files.push(item);
    }

    /// From now on there is a map.
    pub fn commit(&mut self)
        ensures
            final(self)@ == (MapText { committed: true, ..old(self)@ }),
    {
        self.committed = true;
    }

    /// Applies an edit.
    pub fn apply(&mut self, edit: MapEdit)
        ensures
            final(self)@ == old(self)@.edited(edit@),
    {
        if !self.committed {
            return;
        }
        match edit {
            MapEdit::Leave => {},
            MapEdit::Remove { repo, relative_path } => {
                self.retract(relative_path.as_str());
            },
            MapEdit::Replace { repo, relative_path, found } => {
                self.enter(relative_path.as_str(), found);
            },
        }
    }

    /// The files that define one of some names.
    pub fn files_defining(&self, wanted: &[String]) -> (r: Vec<String>)
        ensures
            texts(r@) == self@.defining(texts(wanted@)),
    {
        let ghost all = self@.files;
        let ghost names = texts(wanted@);
        let ghost keep = |f: MappedText| defines_any(f, names);
        let ghost path = |f: MappedText| f.relative_path;
        let mut out: Vec<String> = Vec::new();
        let mut i: usize = 0;
        proof {
            reveal(Seq::filter);
            assert(texts(out@) =~= all.take(0).filter(keep).map_values(path));
            assert(texts(out@) =~= Seq::<Seq<char>>::empty());
        }
        if !self.committed {
            return out;
        }
        while i < self.files.len()
            invariant
                i <= self.files@.len(),
                all == self@.files,
                names == texts(wanted@),
                keep == (|f: MappedText| defines_any(f, names)),
                path == (|f: MappedText| f.relative_path),
                texts(out@) == all.take(i as int).filter(keep).map_values(path),
            decreases self.files@.len() - i,
        {
            proof {
                reveal(Seq::filter);
                assert(all.take(i + 1).drop_last() =~= all.take(i as int));
                assert(all.take(i + 1).last() == self.files@[i as int]@);
            }
            proof {
                assert(all[i as int].found.names == texts(self.files@[i as int].found.names@));
            }
            if names_any(&self.files[i].found.names, wanted) {
                let p = self.files[i].relative_path.clone();
                proof {
                    let kept = all.take(i as int).filter(keep);
                    assert(texts(out@.push(p)) =~= texts(out@).push(p@));
                    assert(kept.push(all[i as int]).map_values(path) =~= kept.map_values(path).push(
                        p@,
                    ));
                }
                out.push(p);
            }
            i = i + 1;
        }
        proof {
            assert(all.take(all.len() as int) =~= all);
        }
        out
    }
}

fn names_any(names: &Vec<String>, wanted: &[String]) -> (r: bool)
    ensures
        r == exists|i: int|
            0 <= i < texts(names@).len() && texts(wanted@).contains(#[trigger] texts(names@)[i]),
{
    let ghost all = texts(names@);
    let mut i: usize = 0;
    while i < names.len()
        invariant
            i <= names@.len(),
            all == texts(names@),
            forall|j: int| 0 <= j < i ==> !texts(wanted@).contains(#[trigger] all[j]),
        decreases names@.len() - i,
    {
        proof {
            assert(all[i as int] == names@[i as int]@);
        }
        if has_text(wanted, names[i].as_str()) {
            return true;
        }
        i = i + 1;
    }
    false
}

// ---- catching up ----

/// How the build of a repository's map ended.
#[derive(Debug)]
pub struct EndedBuild {
    pub repo: String,
    /// A new map is in place. It is not where the build was given up, failed, or found
    /// nothing to change.
    pub landed: bool,
}

pub open spec fn ended_texts(v: Seq<EndedBuild>) -> Seq<(Seq<char>, bool)> {
    v.map_values(|b: EndedBuild| (b.repo@, b.landed))
}

/// The repositories whose map has just landed, and that are still registered.
pub open spec fn to_catch_up(builds: Seq<(Seq<char>, bool)>, registered: Seq<RegisteredText>) -> Seq<
    Seq<char>,
> {
    builds.filter(|b: (Seq<char>, bool)| b.1 && has_path(registered, b.0)).map_values(
        |b: (Seq<char>, bool)| b.0,
    )
}

impl CodeIntelEngine {
    /// The repositories to index one more time, because the map that their first pass wanted
    /// has landed since.
    pub fn catch_up_on_definition_maps(&self, builds: &[EndedBuild]) -> (r: Vec<String>)
        ensures
            texts(r@) == to_catch_up(ended_texts(builds@), self@.registered),
    {
        let ghost all = ended_texts(builds@);
        let ghost list = self@.registered;
        let ghost keep = |b: (Seq<char>, bool)| b.1 && has_path(list, b.0);
        let ghost path = |b: (Seq<char>, bool)| b.0;
        let mut out: Vec<String> = Vec::new();
        let mut i: usize = 0;
        proof {
            reveal(Seq::filter);
            assert(texts(out@) =~= all.take(0).filter(keep).map_values(path));
        }
        while i < builds.len()
            invariant
                i <= builds@.len(),
                all == ended_texts(builds@),
                list == self@.registered,
                keep == (|b: (Seq<char>, bool)| b.1 && has_path(list, b.0)),
                path == (|b: (Seq<char>, bool)| b.0),
                texts(out@) == all.take(i as int).filter(keep).map_values(path),
            decreases builds@.len() - i,
        {
            proof {
                reveal(Seq::filter);
                assert(all.take(i + 1).drop_last() =~= all.take(i as int));
                assert(all.take(i + 1).last() == (
                    builds@[i as int].repo@,
                    builds@[i as int].landed,
                ));
            }
            if builds[i].landed && self.registry.is_registered(builds[i].repo.as_str()) {
                let p = builds[i].repo.clone();
                proof {
                    let kept = all.take(i as int).filter(keep);
                    assert(texts(out@.push(p)) =~= texts(out@).push(p@));
                    assert(kept.push(all[i as int]).map_values(path) =~= kept.map_values(path).push(
                        p@,
                    ));
                }
                out.push(p);
            }
            i = i + 1;
        }
        proof {
            assert(all.take(all.len() as int) =~= all);
        }
        out
    }
}

// ---- laws of the map ----

/// What a map says of a file, where it says anything.
pub open spec fn says_of(map: MapText, rel: Seq<char>) -> Seq<FoundText> {
    if map.committed {
        map.files.filter(|f: MappedText| f.relative_path == rel).map_values(
            |f: MappedText| f.found,
        )
    } else {
        Seq::empty()
    }
}

/// A map follows a changed file: it says of the file what it defines now, once, and nothing
/// once the file is gone. What it says of other files stays.
pub proof fn law_the_map_follows_a_changed_file(
    map: MapText,
    repo: Seq<char>,
    rel: Seq<char>,
    change: ChangeType,
    found: Option<FoundText>,
    other: Seq<char>,
)
    requires
        map.committed,
    ensures
        ({
            let after = map.edited(map_edit(repo, rel, change, found));
            &&& after.committed
            &&& change == ChangeType::Deleted ==> says_of(after, rel) == Seq::<FoundText>::empty()
            &&& change != ChangeType::Deleted ==> match found {
                Some(f) => says_of(after, rel) == seq![f],
                None => after == map,
            }
            &&& other != rel ==> says_of(after, other) == says_of(map, other)
        }),
{
    reveal(Seq::filter);
    let own = |f: MappedText| f.relative_path == rel;
    let theirs = |f: MappedText| f.relative_path == other;
    let kept = without_mapped(map.files, rel);
    lemma_without_mapped(map.files, rel, rel);
    lemma_without_mapped(map.files, rel, other);
    assert(kept.filter(own).map_values(|f: MappedText| f.found) =~= Seq::<FoundText>::empty());
    match found {
        Some(f) => {
            let entry = MappedText { relative_path: rel, found: f };
            let all = kept.push(entry);
            assert(all.drop_last() =~= kept);
            assert(all.filter(own) =~= kept.filter(own).push(entry));
            assert(all.filter(own).map_values(|f: MappedText| f.found) =~= seq![f]);
            if other != rel {
                assert(all.filter(theirs) =~= kept.filter(theirs));
            }
        },
        None => {},
    }
}

proof fn lemma_without_mapped(files: Seq<MappedText>, rel: Seq<char>, other: Seq<char>)
    ensures
        without_mapped(files, rel).filter(|f: MappedText| f.relative_path == other) == if other
            == rel {
            Seq::empty()
        } else {
            files.filter(|f: MappedText| f.relative_path == other)
        },
    decreases files.len(),
{
    reveal(Seq::filter);
    let theirs = |f: MappedText| f.relative_path == other;
    if files.len() > 0 {
        let front = files.drop_last();
        lemma_without_mapped(front, rel, other);
        let kept = without_mapped(front, rel);
        if files.last().relative_path != rel {
            assert(without_mapped(files, rel) =~= kept.push(files.last()));
            assert(kept.push(files.last()).drop_last() =~= kept);
        }
    }
}

/// A repository is indexed once more when its map lands, and not where none did.
pub proof fn law_a_landed_map_is_caught_up_on(
    builds: Seq<(Seq<char>, bool)>,
    registered: Seq<RegisteredText>,
    repo: Seq<char>,
)
    ensures
        to_catch_up(builds, registered).contains(repo) <==> builds.contains((repo, true))
            && has_path(registered, repo),
{
    let keep = |b: (Seq<char>, bool)| b.1 && has_path(registered, b.0);
    let out = to_catch_up(builds, registered);
    lemma_filtered(builds, keep);
    if out.contains(repo) {
        let k = choose|k: int| 0 <= k < out.len() && out[k] == repo;
        let b = builds.filter(keep)[k];
        assert(builds.filter(keep).contains(b));
        assert(b == (repo, true));
    }
    if builds.contains((repo, true)) && has_path(registered, repo) {
        assert(builds.filter(keep).contains((repo, true)));
        let k = choose|k: int|
            0 <= k < builds.filter(keep).len() && builds.filter(keep)[k] == (repo, true);
        assert(out[k] == repo);
    }
}

} // verus!
