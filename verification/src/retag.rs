//! What a batch of changes does about the tag database of a repository.

use vstd::prelude::*;

use crate::backends::{refresh_gtags_if_active, watch_refresh, RefreshStep};
use crate::batch::tag_texts;
use crate::changes::tagged_table;
use crate::engine::{
    keys_distinct, lemma_put_repo, lemma_repo_index, put_repo, repo_index, symbols_of,
    CodeIntelEngine, EngineText, IndexedText,
};
use crate::store::{is_written_after, written_after, WrittenFile};
use crate::watch::tags_step;

verus! {

/// A C or C++ file that a batch touched.
#[derive(Debug)]
pub struct TouchedSource {
    pub file: WrittenFile,
    /// The file is still there.
    pub exists: bool,
}

pub struct TouchedText {
    pub path: Seq<char>,
    pub modified: Option<u64>,
    pub exists: bool,
}

impl View for TouchedSource {
    type V = TouchedText;

    open spec fn view(&self) -> TouchedText {
        TouchedText {
            path: self.file.path@,
            modified: self.file.modified,
            exists: self.exists,
        }
    }
}

pub open spec fn touched_texts(v: Seq<TouchedSource>) -> Seq<TouchedText> {
    v.map_values(|s: TouchedSource| s@)
}

/// The database does not show a file as it is: the file is gone, or was written later.
pub open spec fn outdates(database: Option<u64>, s: TouchedText) -> bool {
    !s.exists || (database matches Some(time) && written_after((s.path, s.modified), time))
}

pub open spec fn some_outdates(database: Option<u64>, files: Seq<TouchedText>) -> bool {
    exists|i: int| 0 <= i < files.len() && outdates(database, #[trigger] files[i])
}

/// Tells whether a batch left the tag database behind.
pub fn tags_are_behind(database: Option<u64>, files: &[TouchedSource]) -> (r: bool)
    ensures
        r == some_outdates(database, touched_texts(files@)),
{
    let ghost all = touched_texts(files@);
    let mut i: usize = 0;
    while i < files.len()
        invariant
            i <= files@.len(),
            all == touched_texts(files@),
            forall|j: int| 0 <= j < i ==> !outdates(database, #[trigger] all[j]),
        decreases files@.len() - i,
    {
        let behind = !files[i].exists || match database {
            Some(time) => is_written_after(&files[i].file, time),
            None => false,
        };
        proof {
            assert(all[i as int] == files@[i as int]@);
        }
        if behind {
            proof {
                assert(outdates(database, all[i as int]));
            }
            return true;
        }
        i = i + 1;
    }
    false
}

/// Decides what is done about the tag database of a repository behind a batch that touched
/// some of its C and C++ files. One that shows them as they are is left alone.
pub fn tags_step_behind_batch(
    enabled: bool,
    database: Option<u64>,
    files: &[TouchedSource],
    millis_since_last: Option<u64>,
    may_generate: bool,
    program_present: bool,
) -> (r: RefreshStep)
    ensures
        r == (if some_outdates(database, touched_texts(files@)) {
            watch_refresh(enabled, millis_since_last, may_generate, program_present)
        } else {
            RefreshStep::Leave
        }),
{
    if tags_are_behind(database, files) {
        refresh_gtags_if_active(enabled, millis_since_last, may_generate, program_present)
    } else {
        RefreshStep::Leave
    }
}

/// The tags of a file that a batch touched.
#[derive(Debug)]
pub struct TaggedSource {
    pub relative_path: String,
    pub exists: bool,
    pub tags: Vec<(String, usize)>,
}

pub struct TaggedText {
    pub relative_path: Seq<char>,
    pub exists: bool,
    pub tags: Seq<(Seq<char>, usize)>,
}

impl View for TaggedSource {
    type V = TaggedText;

    open spec fn view(&self) -> TaggedText {
        TaggedText {
            relative_path: self.relative_path@,
            exists: self.exists,
            tags: tag_texts(self.tags@),
        }
    }
}

pub open spec fn tagged_texts(v: Seq<TaggedSource>) -> Seq<TaggedText> {
    v.map_values(|s: TaggedSource| s@)
}

/// The engine once the tags of the files that are still there were folded in, one after the
/// other.
pub open spec fn retagged(state: EngineText, key: Seq<char>, files: Seq<TaggedText>) -> EngineText
    decreases files.len(),
{
    if files.len() == 0 {
        state
    } else {
        let before = retagged(state, key, files.drop_last());
        if files.last().exists {
            tags_step(before, key, files.last().relative_path, files.last().tags)
        } else {
            before
        }
    }
}

impl CodeIntelEngine {
    /// Folds the tags of the files that a batch touched into their symbols, where the tag
    /// database of the repository is in use.
    pub fn merge_batch_tags(&mut self, key: &str, enabled: bool, files: &[TaggedSource])
        requires
            old(self)@.wf(),
        ensures
            final(self)@.wf(),
            final(self).options == old(self).options,
            final(self)@ == (if enabled {
                retagged(old(self)@, key@, tagged_texts(files@))
            } else {
                old(self)@
            }),
    {
        if !enabled {
            return;
        }
        let ghost all = tagged_texts(files@);
        let ghost start = self@;
        let mut i: usize = 0;
        proof {
            assert(all.take(0) =~= Seq::<TaggedText>::empty());
        }
        while i < files.len()
            invariant
                i <= files@.len(),
                all == tagged_texts(files@),
                self@.wf(),
                self.options == old(self).options,
                self@ == retagged(start, key@, all.take(i as int)),
            decreases files@.len() - i,
        {
            proof {
                assert(all.take(i + 1).drop_last() =~= all.take(i as int));
                assert(all.take(i + 1).last() == files@[i as int]@);
            }
            if files[i].exists {
                self.merge_tags(key, files[i].relative_path.as_str(), files[i].tags.as_slice());
            }
            i = i + 1;
        }
        proof {
            assert(all.take(all.len() as int) =~= all);
        }
    }
}

/// A database that is as young as every file of a batch, all of them still there, is not
/// behind.
pub proof fn law_a_current_database_is_not_behind(database: u64, files: Seq<TouchedText>)
    requires
        forall|i: int| 0 <= i < files.len() ==> (#[trigger] files[i]).exists,
        forall|i: int|
            0 <= i < files.len() ==> ((#[trigger] files[i]).modified matches Some(written)
                ==> written <= database),
    ensures
        !some_outdates(Some(database), files),
{
}

/// A file that is gone leaves the database behind, whatever its age.
pub proof fn law_a_deletion_leaves_the_database_behind(
    database: Option<u64>,
    files: Seq<TouchedText>,
    i: int,
)
    requires
        0 <= i < files.len(),
        !files[i].exists,
    ensures
        some_outdates(database, files),
{
    assert(outdates(database, files[i]));
}

/// The tags of one repository's files leave what every other one answers from as it was.
pub proof fn law_tags_touch_one_repo(
    state: EngineText,
    key: Seq<char>,
    files: Seq<TaggedText>,
    other: Seq<char>,
)
    requires
        keys_distinct(state.repos),
        other != key,
    ensures
        keys_distinct(retagged(state, key, files).repos),
        symbols_of(retagged(state, key, files).repos, other) == symbols_of(state.repos, other),
    decreases files.len(),
{
    if files.len() > 0 {
        law_tags_touch_one_repo(state, key, files.drop_last(), other);
        let before = retagged(state, key, files.drop_last());
        lemma_repo_index(before.repos, key);
        match repo_index(before.repos, key) {
            Some(i) => {
                let item = IndexedText {
                    symbols: tagged_table(
                        before.repos[i].symbols,
                        files.last().relative_path,
                        files.last().tags,
                    ),
                    ..before.repos[i]
                };
                lemma_put_repo(before.repos, item);
                assert(put_repo(before.repos, item) == before.repos.update(i, item));
            },
            None => {},
        }
    }
}

} // verus!
