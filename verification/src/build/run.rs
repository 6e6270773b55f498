//! Building by a plan: one step after the other, until one fails.
//!
//! A build says what has to be done next, and is told whether that succeeded. What is done stays
//! done, whatever fails later.
use crate::build::compile::{BinPlan, CodegenInvocation, CompileInvocation, LibPlan};
use crate::path::FilePath;
use vstd::prelude::*;

verus! {

/// How far a build is: how many of its steps have succeeded, and whether one has failed.
#[verifier::ext_equal]
pub struct RunModel {
    pub total: nat,
    pub done: nat,
    pub failed: bool,
}

/// A build at its beginning.
pub open spec fn run_start(total: nat) -> RunModel {
    RunModel { total, done: 0, failed: false }
}

/// A build after it was told whether a step succeeded. Once it has ended nothing changes it.
pub open spec fn run_step(run: RunModel, succeeded: bool) -> RunModel {
    if run.failed || run.done >= run.total {
        run
    } else if succeeded {
        RunModel { total: run.total, done: run.done + 1, failed: false }
    } else {
        RunModel { total: run.total, done: run.done, failed: true }
    }
}

/// A build after it was told whether a number of steps succeeded.
pub open spec fn run_after(run: RunModel, steps: Seq<bool>) -> RunModel
    decreases steps.len(),
{
    if steps.len() == 0 {
        run
    } else {
        run_step(run_after(run, steps.drop_last()), steps.last())
    }
}

/// How far the build of a library is.
#[derive(Debug)]
enum LibStage {
    Clear,
    Compile,
    Make(usize),
    Move(usize),
    Built,
}

/// The build of a library.
#[derive(Debug)]
pub struct LibBuild {
    plan: LibPlan,
    stage: LibStage,
    failed: bool,
}

/// How many steps a plan for a library has.
pub open spec fn lib_steps(plan: LibPlan) -> nat {
    2 + 2 * plan.moves@.len()
}

impl View for LibBuild {
    type V = RunModel;

    closed spec fn view(&self) -> RunModel {
        RunModel {
            total: lib_steps(self.plan),
            done: match self.stage {
                LibStage::Clear => 0,
                LibStage::Compile => 1,
                LibStage::Make(i) => 2 + 2 * i as nat,
                LibStage::Move(i) => 3 + 2 * i as nat,
                LibStage::Built => lib_steps(self.plan),
            },
            failed: self.failed,
        }
    }
}

/// What has to be done for the build of a library.
#[derive(Debug)]
pub enum LibAction<'a> {
    /// Make the directory an empty one.
    Clear { dir: &'a FilePath },
    /// Call the compiler.
    Compile(&'a CompileInvocation),
    /// Make the directory, with those above it, unless it is there.
    MakeDir { dir: &'a FilePath },
    /// Move the file.
    Move { from: &'a FilePath, to: &'a FilePath },
    /// Nothing: the library is built.
    Built,
    /// Nothing: a step failed.
    Failed,
}

/// Whether an action is what the build of a library needs next: the directory is cleared, the
/// compiler is called, and then for each file in turn its directory is made and it is moved.
pub open spec fn is_lib_action(plan: LibPlan, run: RunModel, action: LibAction) -> bool {
    if run.failed {
        action is Failed
    } else if run.done == 0 {
        action matches LibAction::Clear { dir } && *dir == plan.clear
    } else if run.done == 1 {
        action matches LibAction::Compile(invocation) && *invocation == plan.compile
    } else if run.done < lib_steps(plan) {
        let moved = plan.moves@[(run.done - 2) / 2];
        if run.done % 2 == 0 {
            action matches LibAction::MakeDir { dir } && *dir == moved.dir
        } else {
            action matches LibAction::Move { from, to } && *from == moved.from && *to == moved.to
        }
    } else {
        action is Built
    }
}

impl LibBuild {
    #[verifier::type_invariant]
    spec fn is_valid(self) -> bool {
        match self.stage {
            LibStage::Make(i) => i < self.plan.moves@.len(),
            LibStage::Move(i) => i < self.plan.moves@.len(),
            _ => true,
        }
    }

    /// The plan that is built by.
    pub closed spec fn plan(&self) -> LibPlan {
        self.plan
    }

    /// Starts a build by a plan.
    pub fn start(plan: LibPlan) -> (build: LibBuild)
        ensures
            build.plan() == plan,
            build@ == run_start(lib_steps(plan)),
    {
        LibBuild { plan, stage: LibStage::Clear, failed: false }
    }

    /// What has to be done next.
    pub fn action<'a>(&'a self) -> (action: LibAction<'a>)
        ensures
            is_lib_action(self.plan(), self@, action),
    {
        proof {
            use_type_invariant(self);
        }
        if self.failed {
            return LibAction::Failed;
        }
        match self.stage {
            LibStage::Clear => LibAction::Clear { dir: &self.plan.clear },
            LibStage::Compile => LibAction::Compile(&self.plan.compile),
            LibStage::Make(i) => {
                assert((2 + 2 * i - 2) / 2 == i && (2 + 2 * i) % 2 == 0);
                LibAction::MakeDir { dir: &self.plan.moves[i].dir }
            },
            LibStage::Move(i) => {
                assert((3 + 2 * i - 2) / 2 == i && (3 + 2 * i) % 2 == 1);
                LibAction::Move { from: &self.plan.moves[i].from, to: &self.plan.moves[i].to }
            },
            LibStage::Built => LibAction::Built,
        }
    }

    /// Goes on, once what had to be done is done or has failed.
    pub fn step(self, succeeded: bool) -> (build: LibBuild)
        ensures
            build.plan() == self.plan(),
            build@ == run_step(self@, succeeded),
    {
        proof {
            use_type_invariant(&self);
        }
        let LibBuild { plan, stage, failed } = self;
        if failed {
            return LibBuild { plan, stage, failed };
        }
        if !succeeded {
            let failed = match stage {
                LibStage::Built => false,
                _ => true,
            };
            return LibBuild { plan, stage, failed };
        }
        let count = plan.moves.len();
        let stage = match stage {
            LibStage::Clear => LibStage::Compile,
            LibStage::Compile => if count > 0 {
                LibStage::Make(0)
            } else {
                LibStage::Built
            },
            LibStage::Make(i) => LibStage::Move(i),
            LibStage::Move(i) => if i + 1 < count {
                LibStage::Make(i + 1)
            } else {
                LibStage::Built
            },
            LibStage::Built => LibStage::Built,
        };
        LibBuild { plan, stage, failed: false }
    }
}

/// How far the build of an executable is.
#[derive(Debug)]
enum BinStage {
    Compile,
    Codegen,
    Built,
}

/// The build of an executable.
#[derive(Debug)]
pub struct BinBuild {
    plan: BinPlan,
    stage: BinStage,
    failed: bool,
}

impl View for BinBuild {
    type V = RunModel;

    closed spec fn view(&self) -> RunModel {
        RunModel {
            total: 2,
            done: match self.stage {
                BinStage::Compile => 0,
                BinStage::Codegen => 1,
                BinStage::Built => 2,
            },
            failed: self.failed,
        }
    }
}

/// What has to be done for the build of an executable.
#[derive(Debug)]
pub enum BinAction<'a> {
    /// Call the compiler.
    Compile(&'a CompileInvocation),
    /// Call the code generator.
    Codegen(&'a CodegenInvocation),
    /// Nothing: the executable is built.
    Built,
    /// Nothing: a step failed.
    Failed,
}

/// Whether an action is what the build of an executable needs next: the compiler is called, and
/// then the code generator.
pub open spec fn is_bin_action(plan: BinPlan, run: RunModel, action: BinAction) -> bool {
    if run.failed {
        action is Failed
    } else if run.done == 0 {
        action matches BinAction::Compile(invocation) && *invocation == plan.compile
    } else if run.done == 1 {
        action matches BinAction::Codegen(invocation) && *invocation == plan.codegen
    } else {
        action is Built
    }
}

impl BinBuild {
    /// The plan that is built by.
    pub closed spec fn plan(&self) -> BinPlan {
        self.plan
    }

    /// Starts a build by a plan.
    pub fn start(plan: BinPlan) -> (build: BinBuild)
        ensures
            build.plan() == plan,
            build@ == run_start(2),
    {
        BinBuild { plan, stage: BinStage::Compile, failed: false }
    }

    /// What has to be done next.
    pub fn action<'a>(&'a self) -> (action: BinAction<'a>)
        ensures
            is_bin_action(self.plan(), self@, action),
    {
        if self.failed {
            return BinAction::Failed;
        }
        match self.stage {
            BinStage::Compile => BinAction::Compile(&self.plan.compile),
            BinStage::Codegen => BinAction::Codegen(&self.plan.codegen),
            BinStage::Built => BinAction::Built,
        }
    }

    /// Goes on, once what had to be done is done or has failed.
    pub fn step(self, succeeded: bool) -> (build: BinBuild)
        ensures
            build.plan() == self.plan(),
            build@ == run_step(self@, succeeded),
    {
        let BinBuild { plan, stage, failed } = self;
        if failed {
            return BinBuild { plan, stage, failed };
        }
        if !succeeded {
            let failed = match stage {
                BinStage::Built => false,
                _ => true,
            };
            return BinBuild { plan, stage, failed };
        }
        let stage = match stage {
            BinStage::Compile => BinStage::Codegen,
            BinStage::Codegen => BinStage::Built,
            BinStage::Built => BinStage::Built,
        };
        BinBuild { plan, stage, failed: false }
    }
}

/// Each step is asked for only after all before it have succeeded, and the first that fails ends
/// the build: as many steps are done as succeeded without a failure before them, and the build has
/// failed exactly where the next one did.
pub proof fn law_steps_follow_success(total: nat, steps: Seq<bool>)
    ensures
        ({
            let run = run_after(run_start(total), steps);
            &&& run.total == total
            &&& run.done <= total
            &&& run.done <= steps.len()
            &&& forall|i: int| 0 <= i < run.done ==> #[trigger] steps[i]
            &&& run.failed <==> run.done < total && run.done < steps.len()
            &&& run.failed ==> !steps[run.done as int]
        }),
    decreases steps.len(),
{
    if steps.len() > 0 {
        let before = steps.drop_last();
        law_steps_follow_success(total, before);
        let run = run_after(run_start(total), before);
        assert forall|i: int| 0 <= i < run.done implies #[trigger] steps[i] by {
            assert(before[i]);
        }
        if run.failed {
            assert(steps[run.done as int] == before[run.done as int]);
        }
    }
}

/// A build goes through if every step succeeds.
pub proof fn law_build_succeeds(total: nat, steps: Seq<bool>)
    requires
        steps.len() == total,
        forall|i: int| 0 <= i < steps.len() ==> #[trigger] steps[i],
    ensures
        run_after(run_start(total), steps) == (RunModel { total, done: total, failed: false }),
{
    law_steps_follow_success(total, steps);
}

/// What is done stays done, and once a build has ended nothing changes it.
pub proof fn law_done_stays_done(run: RunModel, steps: Seq<bool>)
    ensures
        run_after(run, steps).done >= run.done,
        run.failed || run.done >= run.total ==> run_after(run, steps) == run,
    decreases steps.len(),
{
    if steps.len() > 0 {
        law_done_stays_done(run, steps.drop_last());
    }
}

/// How a build goes on: a step that succeeds is done, and one that fails ends the build.
pub proof fn law_answers_decide_a_build(total: nat, done: nat)
    requires
        done < total,
    ensures
        run_start(total) == (RunModel { total, done: 0, failed: false }),
        run_step(RunModel { total, done, failed: false }, true) == (RunModel {
            total,
            done: done + 1,
            failed: false,
        }),
        run_step(RunModel { total, done, failed: false }, false) == (RunModel {
            total,
            done,
            failed: true,
        }),
{
}

/// The steps of the build of a library, in order: the directory is cleared, the compiler is called,
/// and each file in turn is moved, once its directory is made. Then it is built.
pub proof fn law_library_is_built_in_order(
    plan: LibPlan,
    total: nat,
    done: nat,
    i: int,
    action: LibAction,
)
    requires
        is_lib_action(plan, RunModel { total, done, failed: false }, action),
    ensures
        lib_steps(plan) == 2 + 2 * plan.moves@.len(),
        done == 0 ==> (action matches LibAction::Clear { dir } && *dir == plan.clear),
        done == 1 ==> (action matches LibAction::Compile(invocation) && *invocation
            == plan.compile),
        0 <= i < plan.moves@.len() && done == 2 + 2 * i ==> (action matches LibAction::MakeDir {
            dir,
        } && *dir == plan.moves@[i].dir),
        0 <= i < plan.moves@.len() && done == 3 + 2 * i ==> (action matches LibAction::Move {
            from,
            to,
        } && *from == plan.moves@[i].from && *to == plan.moves@[i].to),
        done == 2 + 2 * plan.moves@.len() ==> action is Built,
{
    if 0 <= i < plan.moves@.len() && (done == 2 + 2 * i || done == 3 + 2 * i) {
        assert((done - 2) / 2 == i);
    }
}

/// The steps of the build of an executable, in order: the compiler is called, then the code
/// generator. Then it is built.
pub proof fn law_executable_is_built_in_order(
    plan: BinPlan,
    total: nat,
    done: nat,
    action: BinAction,
)
    requires
        is_bin_action(plan, RunModel { total, done, failed: false }, action),
    ensures
        done == 0 ==> (action matches BinAction::Compile(invocation) && *invocation
            == plan.compile),
        done == 1 ==> (action matches BinAction::Codegen(invocation) && *invocation
            == plan.codegen),
        done == 2 ==> action is Built,
{
}

/// A build that has failed asks for nothing more.
pub proof fn law_failed_build_asks_for_nothing(
    lib: LibPlan,
    bin: BinPlan,
    total: nat,
    done: nat,
    lib_action: LibAction,
    bin_action: BinAction,
)
    ensures
        is_lib_action(lib, RunModel { total, done, failed: true }, lib_action)
            ==> lib_action is Failed,
        is_bin_action(bin, RunModel { total, done, failed: true }, bin_action)
            ==> bin_action is Failed,
{
}

} // verus!
