//! `AppStage`: the phases of a frame, mapped onto the ECS stages.
use vstd::prelude::*;
use crate::ecs::system::{frame_order, stage_rank, SystemStage};

verus! {

/// Frame execution stage. Earlier stages run first.
#[derive(Debug, Clone, Copy, PartialEq, Eq, Structural, Hash, PartialOrd, Ord)]
pub enum AppStage {
    /// Input handling and command buffer flush.
    PreUpdate,
    /// Main game logic.
    Update,
    /// Transform propagation, culling.
    PostUpdate,
    /// GPU draw call submission.
    Render,
    /// Stats, profiling, cleanup.
    PostRender,
}

impl AppStage {
    /// Every stage, in frame order.
    pub fn all() -> (v: [AppStage; 5])
        ensures
            v@ == seq![AppStage::PreUpdate, AppStage::Update, AppStage::PostUpdate, AppStage::Render, AppStage::PostRender],
    {
        let v = [AppStage::PreUpdate, AppStage::Update, AppStage::PostUpdate, AppStage::Render, AppStage::PostRender];
        assert(v@ =~= seq![AppStage::PreUpdate, AppStage::Update, AppStage::PostUpdate, AppStage::Render, AppStage::PostRender]);
        v
    }
}

/// The ECS stage each app stage runs in.
pub open spec fn ecs_stage(stage: AppStage) -> SystemStage {
    match stage {
        AppStage::PreUpdate => SystemStage::PreUpdate,
        AppStage::Update => SystemStage::Update,
        AppStage::PostUpdate => SystemStage::PostUpdate,
        AppStage::Render => SystemStage::Render,
        AppStage::PostRender => SystemStage::PostRender,
    }
}

impl From<AppStage> for SystemStage {
    fn from(stage: AppStage) -> (s: SystemStage) {
        match stage {
            AppStage::PreUpdate => SystemStage::PreUpdate,
            AppStage::Update => SystemStage::Update,
            AppStage::PostUpdate => SystemStage::PostUpdate,
            AppStage::Render => SystemStage::Render,
            AppStage::PostRender => SystemStage::PostRender,
        }
    }
}

impl vstd::std_specs::convert::FromSpecImpl<AppStage> for SystemStage {
    open spec fn obeys_from_spec() -> bool {
        true
    }

    open spec fn from_spec(stage: AppStage) -> SystemStage {
        ecs_stage(stage)
    }
}

/// Each app stage runs in the ECS stage at the same place in the frame, so
/// the app's frame order is kept: earlier app stages run in earlier ECS
/// stages.
pub proof fn law_app_stages_keep_their_place()
    ensures
        forall|i: int| 0 <= i < 5 ==> ecs_stage(#[trigger] app_order()[i]) == frame_order()[i],
        forall|i: int, j: int| 0 <= i < j < 5 ==>
            stage_rank(ecs_stage(#[trigger] app_order()[i])) < stage_rank(ecs_stage(#[trigger] app_order()[j])),
{
}

/// The app stages in frame order.
pub open spec fn app_order() -> Seq<AppStage> {
    seq![AppStage::PreUpdate, AppStage::Update, AppStage::PostUpdate, AppStage::Render, AppStage::PostRender]
}

} // verus!
