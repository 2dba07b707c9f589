//! Choosing the branch whose history is ranked.
//!
//! The default branch is found by asking git, one question at a time: does
//! `origin/HEAD` exist and where does it point, else `main`, else `master`,
//! else where `HEAD` points, else `HEAD` itself. The questions are asked by
//! the caller; this module says which question comes next and what the
//! answers decide.

use vstd::prelude::*;
use crate::text::{chars_of, trim_chars, trim_range};

verus! {

/// The question being asked.
#[derive(Debug, Clone, Copy, PartialEq, Eq, Structural)]
pub enum BranchStep {
    /// Does `refs/remotes/origin/HEAD` exist?
    OriginHeadExists,
    /// Where does `refs/remotes/origin/HEAD` point?
    OriginHeadTarget,
    /// Does `refs/heads/main` exist?
    MainExists,
    /// Does `refs/heads/master` exist?
    MasterExists,
    /// Where does `HEAD` point?
    HeadTarget,
}

/// What git answered.
#[derive(Debug, Clone, PartialEq, Eq)]
pub enum BranchAnswer {
    /// `git show-ref --verify --quiet <ref>` succeeded or not.
    RefExists(bool),
    /// `git symbolic-ref -q <ref>` printed this (trimmed, non-empty), or
    /// nothing.
    SymbolicRef(Option<String>),
}

/// The next question, or the branch.
#[derive(Debug, Clone, PartialEq, Eq)]
pub enum BranchNext {
    Ask(BranchStep),
    Found(String),
}

pub open spec fn step_ref(step: BranchStep) -> Seq<char> {
    match step {
        BranchStep::OriginHeadExists => "refs/remotes/origin/HEAD"@,
        BranchStep::OriginHeadTarget => "refs/remotes/origin/HEAD"@,
        BranchStep::MainExists => "refs/heads/main"@,
        BranchStep::MasterExists => "refs/heads/master"@,
        BranchStep::HeadTarget => "HEAD"@,
    }
}

/// Whether a step asks `symbolic-ref` (else `show-ref`).
pub open spec fn asks_symbolic(step: BranchStep) -> bool {
    step == BranchStep::OriginHeadTarget || step == BranchStep::HeadTarget
}

impl BranchStep {
    /// The reference that the question is about.
    pub fn reference(&self) -> (r: &'static str)
        ensures
            r@ == step_ref(*self),
    {
        match self {
            BranchStep::OriginHeadExists => "refs/remotes/origin/HEAD",
            BranchStep::OriginHeadTarget => "refs/remotes/origin/HEAD",
            BranchStep::MainExists => "refs/heads/main",
            BranchStep::MasterExists => "refs/heads/master",
            BranchStep::HeadTarget => "HEAD",
        }
    }

    /// Whether the question is put to `git symbolic-ref` (else to `git show-ref`).
    pub fn is_symbolic(&self) -> (r: bool)
        ensures
            r == asks_symbolic(*self),
    {
        match self {
            BranchStep::OriginHeadTarget => true,
            BranchStep::HeadTarget => true,
            _ => false,
        }
    }
}

/// The first question.
pub fn detect_default_branch_start() -> (r: BranchStep)
    ensures
        r == BranchStep::OriginHeadExists,
{
    BranchStep::OriginHeadExists
}

/// What an answer decides.
pub open spec fn branch_next_of(step: BranchStep, exists: bool, target: Option<Seq<char>>) -> (
    Option<BranchStep>,
    Seq<char>,
) {
    match step {
        BranchStep::OriginHeadExists => if exists {
            (Some(BranchStep::OriginHeadTarget), Seq::empty())
        } else {
            (Some(BranchStep::MainExists), Seq::empty())
        },
        BranchStep::OriginHeadTarget => match target {
            Some(t) => (None, t),
            None => (None, "refs/remotes/origin/HEAD"@),
        },
        BranchStep::MainExists => if exists {
            (None, "refs/heads/main"@)
        } else {
            (Some(BranchStep::MasterExists), Seq::empty())
        },
        BranchStep::MasterExists => if exists {
            (None, "refs/heads/master"@)
        } else {
            (Some(BranchStep::HeadTarget), Seq::empty())
        },
        BranchStep::HeadTarget => match target {
            Some(t) => (None, t),
            None => (None, "HEAD"@),
        },
    }
}

/// Takes one answer and gives the next question or the branch. An answer of
/// the other kind than the question counts as a negative one.
pub fn detect_default_branch_step(step: BranchStep, answer: &BranchAnswer) -> (r: BranchNext)
    ensures
        ({
            let exists = answer matches BranchAnswer::RefExists(true);
            let target = match answer {
                BranchAnswer::SymbolicRef(Some(t)) => Some(t@),
                _ => None,
            };
            let (next, found) = branch_next_of(step, exists, target);
            match next {
                Some(s) => r == BranchNext::Ask(s),
                None => r matches BranchNext::Found(b) && b@ == found,
            }
        }),
{
    let exists = match answer {
        BranchAnswer::RefExists(b) => *b,
        _ => false,
    };
    match step {
        BranchStep::OriginHeadExists => if exists {
            BranchNext::Ask(BranchStep::OriginHeadTarget)
        } else {
            BranchNext::Ask(BranchStep::MainExists)
        },
        BranchStep::OriginHeadTarget => match answer {
            BranchAnswer::SymbolicRef(Some(t)) => BranchNext::Found(t.clone()),
            _ => BranchNext::Found("refs/remotes/origin/HEAD".to_string()),
        },
        BranchStep::MainExists => if exists {
            BranchNext::Found("refs/heads/main".to_string())
        } else {
            BranchNext::Ask(BranchStep::MasterExists)
        },
        BranchStep::MasterExists => if exists {
            BranchNext::Found("refs/heads/master".to_string())
        } else {
            BranchNext::Ask(BranchStep::HeadTarget)
        },
        BranchStep::HeadTarget => match answer {
            BranchAnswer::SymbolicRef(Some(t)) => BranchNext::Found(t.clone()),
            _ => BranchNext::Found("HEAD".to_string()),
        },
    }
}

/// The default branch that the answers of a repository decide.
pub open spec fn default_branch_of(
    origin_head_exists: bool,
    origin_head_target: Option<Seq<char>>,
    main_exists: bool,
    master_exists: bool,
    head_target: Option<Seq<char>>,
) -> Seq<char> {
    if origin_head_exists {
        match origin_head_target {
            Some(t) => t,
            None => "refs/remotes/origin/HEAD"@,
        }
    } else if main_exists {
        "refs/heads/main"@
    } else if master_exists {
        "refs/heads/master"@
    } else {
        match head_target {
            Some(t) => t,
            None => "HEAD"@,
        }
    }
}

/// Answering each question as a repository would, from the first question
/// on, ends with that repository's default branch, after at most five
/// questions.
pub proof fn lemma_branch_questions_decide(
    origin_head_exists: bool,
    origin_head_target: Option<Seq<char>>,
    main_exists: bool,
    master_exists: bool,
    head_target: Option<Seq<char>>,
)
    ensures
        ({
            let answer = |s: BranchStep|
                match s {
                    BranchStep::OriginHeadExists => (origin_head_exists, None::<Seq<char>>),
                    BranchStep::OriginHeadTarget => (false, origin_head_target),
                    BranchStep::MainExists => (main_exists, None::<Seq<char>>),
                    BranchStep::MasterExists => (master_exists, None::<Seq<char>>),
                    BranchStep::HeadTarget => (false, head_target),
                };
            let s1 = BranchStep::OriginHeadExists;
            let n1 = branch_next_of(s1, answer(s1).0, answer(s1).1);
            let found = match n1.0 {
                None => n1.1,
                Some(s2) => {
                    let n2 = branch_next_of(s2, answer(s2).0, answer(s2).1);
                    match n2.0 {
                        None => n2.1,
                        Some(s3) => {
                            let n3 = branch_next_of(s3, answer(s3).0, answer(s3).1);
                            match n3.0 {
                                None => n3.1,
                                Some(s4) => {
                                    let n4 = branch_next_of(s4, answer(s4).0, answer(s4).1);
                                    match n4.0 {
                                        None => n4.1,
                                        Some(s5) => branch_next_of(s5, answer(s5).0, answer(s5).1).1,
                                    }
                                },
                            }
                        },
                    }
                },
            };
            found == default_branch_of(
                origin_head_exists,
                origin_head_target,
                main_exists,
                master_exists,
                head_target,
            )
        }),
{
}

/// The branch that `git symbolic-ref` printed: its output trimmed, or
/// nothing when that is empty.
pub fn symbolic_ref_value(stdout: &str) -> (r: Option<String>)
    ensures
        trim_chars(stdout@).len() == 0 ==> r is None,
        trim_chars(stdout@).len() > 0 ==> (r matches Some(t) && t@ == trim_chars(stdout@)),
{
    let cs = chars_of(stdout);
    let t = trim_range(&cs, 0, cs.len());
    assert(cs@.subrange(0, cs@.len() as int) == stdout@);
    if t.as_str().is_empty() {
        None
    } else {
        Some(t)
    }
}

} // verus!
