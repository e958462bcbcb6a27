use vstd::prelude::*;
use crate::error::{Error, ErrorView};
use crate::text::opt_text;
use crate::utils::{file_name_of, path_file_name};

verus! {

/// Options of the backup command.
#[derive(Debug)]
pub struct BackupOpts {
    /// Directory that holds the backups; a sibling of the store by default.
    pub dir: Option<String>,
    /// Keep only this many of the newest backups.
    pub prune: Option<usize>,
    /// Verify a backup instead of creating one.
    pub verify: bool,
    /// The backup to verify.
    pub file: Option<String>,
}

/// What a backup command asks for.
#[derive(Debug)]
pub enum BackupPlan {
    Verify(String),
    Prune(usize),
    Create,
}

/// Mathematical value of a [`BackupPlan`].
pub ghost enum BackupPlanView {
    Verify(Seq<char>),
    Prune(usize),
    Create,
}

impl View for BackupPlan {
    type V = BackupPlanView;

    open spec fn view(&self) -> BackupPlanView {
        match self {
            BackupPlan::Verify(name) => BackupPlanView::Verify(name@),
            BackupPlan::Prune(n) => BackupPlanView::Prune(*n),
            BackupPlan::Create => BackupPlanView::Create,
        }
    }
}

/// What the options ask for, given the final component of `file` where one is
/// named. Verifying comes first and needs a file with a name; then pruning; a
/// command with neither creates a backup.
pub open spec fn plan_spec(
    verify: bool,
    prune: Option<usize>,
    file: Option<Seq<char>>,
    file_name: Option<Seq<char>>,
) -> Result<BackupPlanView, ErrorView> {
    if verify {
        match file {
            None => Err(ErrorView::Other("--file required with --verify"@)),
            Some(_) => match file_name {
                None => Err(ErrorView::Other("invalid backup file name"@)),
                Some(name) => Ok(BackupPlanView::Verify(name)),
            },
        }
    } else {
        match prune {
            Some(n) => Ok(BackupPlanView::Prune(n)),
            None => Ok(BackupPlanView::Create),
        }
    }
}

/// The value of a plan or of the error in its place.
pub open spec fn plan_view(r: Result<BackupPlan, Error>) -> Result<BackupPlanView, ErrorView> {
    match r {
        Ok(p) => Ok(p@),
        Err(e) => Err(e@),
    }
}

/// Decides what a backup command does, given the final component of the file that
/// it names.
pub fn plan_with(opts: &BackupOpts, file_name: Option<String>) -> (r: Result<BackupPlan, Error>)
    ensures
        plan_view(r) == plan_spec(
            opts.verify,
            opts.prune,
            opt_text(opts.file),
            opt_text(file_name),
        ),
{
    if opts.verify {
        match &opts.file {
            None => Err(Error::Other("--file required with --verify".to_owned())),
            Some(_) => match file_name {
                None => Err(Error::Other("invalid backup file name".to_owned())),
                Some(name) => Ok(BackupPlan::Verify(name)),
            },
        }
    } else {
        match opts.prune {
            Some(n) => Ok(BackupPlan::Prune(n)),
            None => Ok(BackupPlan::Create),
        }
    }
}

/// The final component of the file that the options name, if they name one.
pub open spec fn named_file(file: Option<Seq<char>>) -> Option<Seq<char>> {
    match file {
        Some(f) => path_file_name(f),
        None => None,
    }
}

/// Decides what a backup command does.
pub fn plan(opts: &BackupOpts) -> (r: Result<BackupPlan, Error>)
    ensures
        plan_view(r) == plan_spec(
            opts.verify,
            opts.prune,
            opt_text(opts.file),
            named_file(opt_text(opts.file)),
        ),
{
    let name = match &opts.file {
        Some(f) => file_name_of(f.as_str()),
        None => None,
    };
    plan_with(opts, name)
}

} // verus!
