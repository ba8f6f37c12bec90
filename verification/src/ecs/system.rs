//! Frame stages and the ordering of systems across them.
use vstd::prelude::*;

verus! {

/// Frame execution stage; systems in earlier stages run first.
#[derive(Debug, Clone, Copy, PartialEq, Eq, Structural, Hash, PartialOrd, Ord)]
pub enum SystemStage {
    PreUpdate,
    Update,
    PostUpdate,
    Render,
    PostRender,
}

/// Position of a stage in the frame.
/// The stages of a frame as the engine documents them: pre-update, update,
/// post-update (transforms, culling), render (draw submission), post-render.
pub open spec fn frame_order() -> Seq<SystemStage> {
    seq![SystemStage::PreUpdate, SystemStage::Update, SystemStage::PostUpdate, SystemStage::Render, SystemStage::PostRender]
}

pub open spec fn stage_rank(s: SystemStage) -> nat {
    match s {
        SystemStage::PreUpdate => 0,
        SystemStage::Update => 1,
        SystemStage::PostUpdate => 2,
        SystemStage::Render => 3,
        SystemStage::PostRender => 4,
    }
}

impl SystemStage {
    /// Position of this stage in the frame.
    pub fn rank(self) -> (r: u8)
        ensures
            r == stage_rank(self),
    {
        match self {
            SystemStage::PreUpdate => 0,
            SystemStage::Update => 1,
            SystemStage::PostUpdate => 2,
            SystemStage::Render => 3,
            SystemStage::PostRender => 4,
        }
    }

    /// Every stage, in frame order.
    pub fn all() -> (v: [SystemStage; 5])
        ensures
            forall|i: int| 0 <= i < 5 ==> stage_rank(#[trigger] v@[i]) == i,
            v@ == frame_order(),
    {
        let v = [SystemStage::PreUpdate, SystemStage::Update, SystemStage::PostUpdate, SystemStage::Render, SystemStage::PostRender];
        assert(v@ =~= frame_order());
        v
    }
}

/// Registered systems with their stages, kept in stage order; systems of
/// one stage keep the order in which they were added.
pub struct SystemScheduler<S> {
    stages: Vec<SystemStage>,
    systems: Vec<S>,
}

/// Stages never decrease along the list.
pub open spec fn stage_sorted<S>(s: Seq<(SystemStage, S)>) -> bool {
    forall|i: int, j: int| 0 <= i <= j < s.len() ==> stage_rank(s[i].0) <= stage_rank(s[j].0)
}

/// Number of entries whose stage runs no later than `stage`.
pub open spec fn insertion_point<S>(s: Seq<(SystemStage, S)>, stage: SystemStage) -> int
    decreases s.len(),
{
    if s.len() == 0 {
        0
    } else if stage_rank(s.last().0) <= stage_rank(stage) {
        s.len() as int
    } else {
        insertion_point(s.drop_last(), stage)
    }
}

proof fn lemma_insertion_point<S>(s: Seq<(SystemStage, S)>, stage: SystemStage, p: int)
    requires
        stage_sorted(s),
        0 <= p <= s.len(),
        forall|i: int| 0 <= i < p ==> stage_rank(s[i].0) <= stage_rank(stage),
        forall|i: int| p <= i < s.len() ==> stage_rank(s[i].0) > stage_rank(stage),
    ensures
        insertion_point(s, stage) == p,
    decreases s.len(),
{
    if s.len() > 0 && p < s.len() {
        lemma_insertion_point(s.drop_last(), stage, p);
    }
}

impl<S> View for SystemScheduler<S> {
    type V = Seq<(SystemStage, S)>;

    closed spec fn view(&self) -> Seq<(SystemStage, S)> {
        Seq::new(self.systems@.len(), |i: int| (self.stages@[i], self.systems@[i]))
    }
}

impl<S> SystemScheduler<S> {
    /// The systems are in stage order.
    #[verifier::type_invariant]
    closed spec fn sorted_by_stage(self) -> bool {
        &&& self.stages@.len() == self.systems@.len()
        &&& forall|i: int, j: int| 0 <= i <= j < self.stages@.len() ==> stage_rank(self.stages@[i]) <= stage_rank(self.stages@[j])
    }

    pub fn new() -> (s: Self)
        ensures
            s@.len() == 0,
    {
        let s = SystemScheduler { stages: Vec::new(), systems: Vec::new() };
        assert(s@ =~= Seq::<(SystemStage, S)>::empty());
        s
    }

    /// Adds `system` to `stage`, after every system of the same or an
    /// earlier stage.
    pub fn add_system_to_stage(&mut self, stage: SystemStage, system: S)
        ensures
            stage_sorted(final(self)@),
            final(self)@ == old(self)@.insert(insertion_point(old(self)@, stage), (stage, system)),
    {
        proof { use_type_invariant(&*self); }
        let ghost v0 = self@;
        let rank = stage.rank();
        let mut p: usize = self.stages.len();
        while p > 0 && self.stages[p - 1].rank() > rank
            invariant
                p <= v0.len(),
                v0.len() == self.stages@.len(),
                forall|i: int| 0 <= i < v0.len() ==> v0[i].0 == #[trigger] self.stages@[i],
                stage_sorted(v0),
                forall|i: int| p <= i < v0.len() ==> stage_rank(v0[i].0) > rank,
            decreases p,
        {
            p = p - 1;
        }
        proof {
            assert forall|i: int| 0 <= i < p implies stage_rank(v0[i].0) <= rank by {
                if p > 0 {
                    assert(stage_rank(v0[p - 1].0) <= rank);
                }
            }
            lemma_insertion_point(v0, stage, p as int);
        }
        let mut taken = SystemScheduler { stages: Vec::new(), systems: Vec::new() };
        std::mem::swap(&mut taken, self);
        let SystemScheduler { mut stages, mut systems } = taken;
        stages.insert(p, stage);
        systems.insert(p, system);
        proof {
            let v1 = v0.insert(p as int, (stage, system));
            assert forall|i: int, j: int| 0 <= i <= j < stages@.len() implies stage_rank(stages@[i]) <= stage_rank(stages@[j]) by {
                assert(stages@[i] == v1[i].0);
                assert(stages@[j] == v1[j].0);
            }
        }
        *self = SystemScheduler { stages, systems };
        proof {
            assert(self@ =~= v0.insert(p as int, (stage, system)));
        }
    }

    /// Number of systems.
    pub fn len(&self) -> (n: usize)
        ensures
            n == self@.len(),
    {
        proof { use_type_invariant(self); }
        self.systems.len()
    }

    /// Positions of the systems of `stage`, in run order.
    pub fn stage_members(&self, stage: SystemStage) -> (v: Vec<usize>)
        ensures
            forall|j: int| 0 <= j < v@.len() ==> v@[j] < self@.len() && self@[v@[j] as int].0 == stage,
            forall|i: int| 0 <= i < self@.len() && self@[i].0 == stage ==>
                exists|j: int| 0 <= j < v@.len() && v@[j] == i,
            forall|j1: int, j2: int| 0 <= j1 < j2 < v@.len() ==> v@[j1] < v@[j2],
    {
        proof { use_type_invariant(self); }
        let mut v: Vec<usize> = Vec::new();
        let mut i: usize = 0;
        while i < self.stages.len()
            invariant
                self@.len() == self.stages@.len(),
                forall|m: int| 0 <= m < self@.len() ==> #[trigger] self@[m].0 == self.stages@[m],
                i <= self@.len(),
                forall|j: int| 0 <= j < v@.len() ==> v@[j] < i && self@[v@[j] as int].0 == stage,
                forall|m: int| 0 <= m < i && self@[m].0 == stage ==>
                    exists|j: int| 0 <= j < v@.len() && v@[j] == m,
                forall|j1: int, j2: int| 0 <= j1 < j2 < v@.len() ==> v@[j1] < v@[j2],
            decreases self.stages.len() - i,
        {
            let ghost v0 = v@;
            if self.stages[i] == stage {
                v.push(i);
                assert(v@[v@.len() - 1] == i);
            }
            proof {
                assert forall|m: int| 0 <= m < i + 1 && self@[m].0 == stage implies
                    exists|j: int| 0 <= j < v@.len() && v@[j] == m by {
                    if m < i {
                        let j = choose|j: int| 0 <= j < v0.len() && v0[j] == m;
                        assert(v@[j] == v0[j]);
                    } else {
                        assert(v@[v@.len() - 1] == m);
                    }
                }
            }
            i = i + 1;
        }
        v
    }

    /// The system at position `i`.
    pub fn system_mut(&mut self, i: usize) -> (s: &mut S)
        requires
            i < old(self)@.len(),
        ensures
            *s == old(self)@[i as int].1,
            final(self)@ == old(self)@.update(i as int, (old(self)@[i as int].0, *final(s))),
    {
        proof { use_type_invariant(&*self); }
        let r = &mut self.systems[i];
        r
    }
}

/// Stages run in the documented frame order: each stage's rank is its
/// position in that order, so post-update work (transforms, culling) runs
/// before render, and every stage is in the order exactly once.
pub proof fn law_stages_follow_frame_order(s: SystemStage)
    ensures
        frame_order().len() == 5,
        frame_order()[stage_rank(s) as int] == s,
        forall|i: int, j: int| 0 <= i < j < 5 ==> stage_rank(#[trigger] frame_order()[i]) < stage_rank(#[trigger] frame_order()[j]),
        stage_rank(SystemStage::PostUpdate) < stage_rank(SystemStage::Render),
{
}

} // verus!
