//! Replacing a file so that it is never seen half written: the new text is
//! written beside it, the old file is moved to a backup, the new one takes its
//! place.

use vstd::prelude::*;

verus! {

/// A step of replacing a file.
#[derive(Clone, Copy, PartialEq, Eq, Structural, Debug)]
pub enum Step {
    /// Write the new text to the temporary file.
    WriteTemp,
    /// Rename the file to the backup.
    KeepOld,
    /// Rename the temporary file to the file.
    Install,
}

/// What the three files hold, `None` for a file that is not there.
#[verifier::ext_equal]
pub struct Files {
    pub target: Option<Seq<u8>>,
    pub temp: Option<Seq<u8>>,
    pub backup: Option<Seq<u8>>,
}

/// The step after a step that went well or not. Only writing the new text must
/// go well.
pub open spec fn step_after(s: Step, ok: bool) -> Option<Step> {
    match s {
        Step::WriteTemp => if ok {
            Some(Step::KeepOld)
        } else {
            None
        },
        Step::KeepOld => Some(Step::Install),
        Step::Install => None,
    }
}

/// What a step may do to the files, if writing and renaming do what they are
/// for. A write that fails, or is interrupted, leaves anything in the temporary
/// file; a rename happens as a whole or not at all.
pub open spec fn step_may(s: Step, data: Seq<u8>, ok: bool, f: Files, g: Files) -> bool {
    match s {
        Step::WriteTemp => if ok {
            g == Files { temp: Some(data), ..f }
        } else {
            g.target == f.target && g.backup == f.backup
        },
        Step::KeepOld => if ok {
            f.target is Some && g == Files { target: None, backup: f.target, ..f }
        } else {
            g == f
        },
        Step::Install => if ok {
            f.temp is Some && g == Files { target: f.temp, temp: None, ..f }
        } else {
            g == f
        },
    }
}

/// Whether the file holds its old text, the new text as a whole, or is not there.
pub open spec fn is_whole(old_files: Files, data: Seq<u8>, f: Files) -> bool {
    f.target == old_files.target || f.target is None || f.target == Some(data)
}

/// However the steps go, and wherever they are interrupted, the file is never
/// empty or cut short: it holds its old text, the new text, or is not there.
/// Until the new text takes its place, its old text is in the file or in the
/// backup; once moved to the backup, it stays there. While the file is not there,
/// its old text is in the backup and the new text in the temporary file.
pub proof fn law_file_is_whole(
    data: Seq<u8>,
    f0: Files,
    f1: Files,
    f2: Files,
    f3: Files,
    ok1: bool,
    ok2: bool,
    ok3: bool,
)
    requires
        step_may(Step::WriteTemp, data, ok1, f0, f1),
        step_after(Step::WriteTemp, ok1) == Some(Step::KeepOld) ==> step_may(
            Step::KeepOld,
            data,
            ok2,
            f1,
            f2,
        ),
        step_after(Step::WriteTemp, ok1) == Some(Step::KeepOld) && step_after(Step::KeepOld, ok2)
            == Some(Step::Install) ==> step_may(Step::Install, data, ok3, f2, f3),
    ensures
        is_whole(f0, data, f1),
        f1.target == f0.target,
        ok1 ==> is_whole(f0, data, f2) && is_whole(f0, data, f3),
        ok1 && f0.target is Some ==> f2.target == f0.target || f2.backup == f0.target,
        ok1 && f2.target is None && f0.target is Some ==> f2.temp == Some(data) && f2.backup
            == f0.target,
        ok1 && f3.target is None && f0.target is Some ==> f3.temp == Some(data) && f3.backup
            == f0.target,
        ok1 && ok2 ==> f3.backup == f0.target,
        ok1 && ok3 ==> f3.target == Some(data),
{
}

impl Step {
    /// The first step.
    pub fn first() -> (s: Step)
        ensures
            s == Step::WriteTemp,
    {
        Step::WriteTemp
    }

    /// The step after this one, which went well or not.
    pub fn next(self, ok: bool) -> (s: Option<Step>)
        ensures
            s == step_after(self, ok),
    {
        match self {
            Step::WriteTemp => if ok {
                Some(Step::KeepOld)
            } else {
                None
            },
            Step::KeepOld => Some(Step::Install),
            Step::Install => None,
        }
    }
}

} // verus!
