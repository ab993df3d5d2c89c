//! The save protocol as steps over a storage medium, and an in-memory medium
//! that performs them.
//!
//! A medium holds, for one store, the canonical document, a temporary sibling
//! and a backup sibling. A save is: copy the canonical document to the backup
//! (when backups are on and the document exists), write the new document to the
//! temporary sibling, then rename the temporary sibling onto the canonical one.

use vstd::prelude::*;
use crate::error::TinyKVError;

verus! {

/// One step of a save.
pub enum SaveStep {
    /// Copy the canonical document to the backup sibling.
    Backup,
    /// Write this document to the temporary sibling.
    WriteTemp(String),
    /// Rename the temporary sibling onto the canonical document.
    CommitTemp,
}

/// What a medium holds: the canonical document and its two siblings, each present or not.
pub struct Files {
    pub main: Option<Seq<char>>,
    pub temp: Option<Seq<char>>,
    pub backup: Option<Seq<char>>,
}

/// The medium after one step, or `None` where the step fails (a copy or rename
/// of a missing file).
pub open spec fn step_result(f: Files, s: SaveStep) -> Option<Files> {
    match s {
        SaveStep::Backup => match f.main {
            Some(m) => Some(Files { backup: Some(m), ..f }),
            None => None,
        },
        SaveStep::WriteTemp(t) => Some(Files { temp: Some(t@), ..f }),
        SaveStep::CommitTemp => match f.temp {
            Some(t) => Some(Files { main: Some(t), temp: None, ..f }),
            None => None,
        },
    }
}

/// The medium after the steps in order, or `None` where one fails.
pub open spec fn run_steps(f: Files, steps: Seq<SaveStep>) -> Option<Files>
    decreases steps.len(),
{
    if steps.len() == 0 {
        Some(f)
    } else {
        match run_steps(f, steps.drop_last()) {
            Some(g) => step_result(g, steps.last()),
            None => None,
        }
    }
}

/// `steps` is the save of document `doc`, with a backup first when backups are
/// on and the canonical document exists.
pub open spec fn is_save_plan(steps: Seq<SaveStep>, backup: bool, main_exists: bool, doc: Seq<char>) -> bool {
    if backup && main_exists {
        &&& steps.len() == 3
        &&& steps[0] is Backup
        &&& steps[1] matches SaveStep::WriteTemp(t) && t@ == doc
        &&& steps[2] is CommitTemp
    } else {
        &&& steps.len() == 2
        &&& steps[0] matches SaveStep::WriteTemp(t) && t@ == doc
        &&& steps[1] is CommitTemp
    }
}

/// The medium after a completed save of `doc`.
pub open spec fn saved(f: Files, backup: bool, doc: Seq<char>) -> Files {
    Files {
        main: Some(doc),
        temp: None,
        backup: if backup && f.main is Some { f.main } else { f.backup },
    }
}

/// A save plan for the medium it was made for runs to the end, leaving the new
/// document in place, no temporary sibling, and the backup as `saved` says.
pub proof fn lemma_plan_runs(f: Files, steps: Seq<SaveStep>, backup: bool, doc: Seq<char>)
    requires
        is_save_plan(steps, backup, f.main is Some, doc),
    ensures
        run_steps(f, steps) == Some(saved(f, backup, doc)),
{
    reveal_with_fuel(run_steps, 4);
    assert(steps.drop_last().drop_last().drop_last().len() == 0 || steps.drop_last().drop_last().len() == 0);
    if backup && f.main is Some {
        assert(steps.drop_last().last() == steps[1]);
        assert(steps.drop_last().drop_last().last() == steps[0]);
    } else {
        assert(steps.drop_last().last() == steps[0]);
    }
    assert(run_steps(f, steps).unwrap() == saved(f, backup, doc));
}

/// A save cut short before its last step (the rename) leaves the canonical
/// document as it was.
pub proof fn lemma_interrupted_save_keeps_main(f: Files, steps: Seq<SaveStep>, backup: bool, doc: Seq<char>, k: int)
    requires
        is_save_plan(steps, backup, f.main is Some, doc),
        0 <= k < steps.len(),
    ensures
        run_steps(f, steps.take(k)) matches Some(g) && g.main == f.main,
{
    reveal_with_fuel(run_steps, 3);
    let p = steps.take(k);
    if k >= 1 {
        assert(p.drop_last() =~= steps.take(k - 1));
        assert(p.last() == steps[k - 1]);
    }
    if k >= 2 {
        assert(p.drop_last().drop_last() =~= steps.take(k - 2));
        assert(p.drop_last().last() == steps[k - 2]);
    }
    if k >= 3 {
        assert(p.drop_last().drop_last().drop_last().len() == 0);
    }
}

/// With backups on, after two successive saves the backup holds exactly what the
/// first save wrote.
pub proof fn lemma_backup_holds_previous_save(f: Files, first: Seq<char>, second: Seq<char>)
    ensures
        saved(f, true, first).main == Some(first),
        saved(saved(f, true, first), true, second).backup == Some(first),
        saved(saved(f, true, first), true, second).main == Some(second),
{
}

/// A medium held in memory.
pub struct MemoryMedium {
    pub main: Option<String>,
    pub temp: Option<String>,
    pub backup: Option<String>,
}

/// The contents of an optional file.
pub open spec fn file_view(f: Option<String>) -> Option<Seq<char>> {
    match f {
        Some(s) => Some(s@),
        None => None,
    }
}

impl View for MemoryMedium {
    type V = Files;

    open spec fn view(&self) -> Files {
        Files { main: file_view(self.main), temp: file_view(self.temp), backup: file_view(self.backup) }
    }
}

fn copy_file(f: &Option<String>) -> (r: Option<String>)
    ensures
        file_view(r) == file_view(*f),
{
    match f {
        Some(s) => Some(s.clone()),
        None => None,
    }
}

impl MemoryMedium {
    /// A medium with no files.
    pub fn new() -> (r: MemoryMedium)
        ensures
            r@ == (Files { main: None, temp: None, backup: None }),
    {
        MemoryMedium { main: None, temp: None, backup: None }
    }

    /// The canonical document, if there is one.
    pub fn read(&self) -> (r: Option<String>)
        ensures
            file_view(r) == self@.main,
    {
        copy_file(&self.main)
    }

    /// Performs one step.
    pub fn apply(&mut self, step: &SaveStep) -> (r: Result<(), TinyKVError>)
        ensures
            match step_result(old(self)@, *step) {
                Some(g) => r is Ok && final(self)@ == g,
                None => r matches Err(e) && e is Io && final(self)@ == old(self)@,
            },
    {
        match step {
            SaveStep::Backup => {
                if self.main.is_none() {
                    return Err(TinyKVError::Io("no document to back up".to_string()));
                }
                self.backup = copy_file(&self.main);
            },
            SaveStep::WriteTemp(t) => {
                self.temp = Some(t.clone());
            },
            SaveStep::CommitTemp => {
                if self.temp.is_none() {
                    return Err(TinyKVError::Io("no temporary document to rename".to_string()));
                }
                self.main = self.temp.take();
            },
        }
        Ok(())
    }

    /// Performs the steps in order, stopping at the first that fails.
    pub fn perform(&mut self, steps: &Vec<SaveStep>) -> (r: Result<(), TinyKVError>)
        ensures
            r is Ok <==> run_steps(old(self)@, steps@) is Some,
            r is Ok ==> Some(final(self)@) == run_steps(old(self)@, steps@),
            r matches Err(e) ==> e is Io,
            r is Err ==> exists|k: int|
                0 <= k < steps@.len() && run_steps(old(self)@, #[trigger] steps@.take(k)) == Some(final(self)@)
                    && step_result(final(self)@, steps@[k]) is None,
    {
        let ghost start = self@;
        let mut i: usize = 0;
        while i < steps.len()
            invariant
                i <= steps@.len(),
                start == old(self)@,
                run_steps(start, steps@.take(i as int)) == Some(self@),
            decreases steps@.len() - i,
        {
            let ghost cur = self@;
            assert(steps@.take(i + 1).drop_last() =~= steps@.take(i as int));
            assert(steps@.take(i + 1).last() == steps@[i as int]);
            match self.apply(&steps[i]) {
                Ok(()) => {},
                Err(e) => {
                    proof {
                        assert(run_steps(start, steps@.take(i as int)) == Some(self@));
                        lemma_run_stops(start, steps@, i as int + 1);
                    }
                    return Err(e);
                },
            }
            i = i + 1;
        }
        assert(steps@.take(steps@.len() as int) =~= steps@);
        Ok(())
    }
}

/// A save plan that stops at a failing step leaves the canonical document as it
/// was: every step before the rename keeps it.
pub proof fn lemma_failed_save_keeps_main(f: Files, g: Files, steps: Seq<SaveStep>, backup: bool, main_exists: bool, doc: Seq<char>, k: int)
    requires
        is_save_plan(steps, backup, main_exists, doc),
        0 <= k < steps.len(),
        run_steps(f, steps.take(k)) == Some(g),
        step_result(g, steps[k]) is None,
    ensures
        g.main == f.main,
{
    reveal_with_fuel(run_steps, 3);
    let p = steps.take(k);
    if k >= 1 {
        assert(p.drop_last() =~= steps.take(k - 1));
        assert(p.last() == steps[k - 1]);
    }
    if k >= 2 {
        assert(p.drop_last().drop_last() =~= steps.take(k - 2));
        assert(p.drop_last().last() == steps[k - 2]);
    }
    if k >= 3 {
        assert(p.drop_last().drop_last().drop_last().len() == 0);
    }
}

/// Once a prefix of the steps fails, the whole run fails.
proof fn lemma_run_stops(f: Files, steps: Seq<SaveStep>, k: int)
    requires
        0 <= k <= steps.len(),
        run_steps(f, steps.take(k)) is None,
    ensures
        run_steps(f, steps) is None,
    decreases steps.len() - k,
{
    if k < steps.len() {
        assert(steps.take(k + 1).drop_last() =~= steps.take(k));
        lemma_run_stops(f, steps, k + 1);
    } else {
        assert(steps.take(k) =~= steps);
    }
}

} // verus!
