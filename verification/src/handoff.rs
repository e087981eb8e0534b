//! The hand-off of frames from the pass that builds them to the agent that
//! presents them.
//!
//! Two display lists go round between the two. The builder takes an empty
//! one from its inbox, fills it and puts it into the agent's inbox; the agent
//! takes the oldest filled one, turns it into a frame, empties it and puts it
//! back into the builder's inbox. Neither waits for the other: a side whose
//! inbox is empty does nothing that turn.

use vstd::prelude::*;
use crate::camera::Camera3D;
use crate::display::{spec_frame, spec_strokes, DisplayList, Draw, Frame, Rgb, WallSlice};
use crate::geom::Vec2u;
use crate::map::LevelMap;

verus! {

/// The number of display lists that go round.
pub const BUFFERS: usize = 2;

/// The pass that builds frames.
#[derive(Debug)]
pub struct DisplaySys {
    inbox: Vec<DisplayList>,
    resolution: Vec2u,
}

/// The agent that presents frames.
#[derive(Debug)]
pub struct DisplayAgent {
    inbox: Vec<DisplayList>,
    resolution: Vec2u,
}

/// The ground of every frame.
pub open spec fn sky() -> Rgb {
    Rgb { r: 0x3f, g: 0x7f, b: 0xff }
}

/// The two sides belong together: between them they hold the display lists
/// that go round, all on the same ground, and those that wait for the
/// builder are empty.
pub closed spec fn linked(sys: DisplaySys, agent: DisplayAgent) -> bool {
    &&& sys.inbox.len() + agent.inbox.len() == BUFFERS
    &&& sys.resolution == agent.resolution
    &&& forall|i: int| 0 <= i < sys.inbox.len() ==> (#[trigger] sys.inbox[i]).walls@.len() == 0
    &&& forall|i: int| 0 <= i < sys.inbox.len() ==> (#[trigger] sys.inbox[i]).bg == sky()
    &&& forall|i: int| 0 <= i < agent.inbox.len() ==> (#[trigger] agent.inbox[i]).bg == sky()
}

impl DisplaySys {
    /// How many empty display lists wait for the builder.
    pub closed spec fn free_count(&self) -> nat {
        self.inbox.len() as nat
    }

    /// The size of the view.
    pub closed spec fn spec_resolution(&self) -> Vec2u {
        self.resolution
    }

    /// The two sides of a hand-off for a view of the given size. Every
    /// display list waits for the builder.
    pub fn new(resolution: Vec2u) -> (pair: (DisplayAgent, DisplaySys))
        ensures
            linked(pair.1, pair.0),
            pair.1.free_count() == BUFFERS,
            pair.0.frames() == Seq::<Seq<WallSlice>>::empty(),
            pair.0.spec_resolution() == resolution,
            pair.1.spec_resolution() == resolution,
    {
        let mut free: Vec<DisplayList> = Vec::new();
        free.push(DisplayList::new(resolution));
        free.push(DisplayList::new(resolution));
        let agent = DisplayAgent { inbox: Vec::new(), resolution };
        let sys = DisplaySys { inbox: free, resolution };
        assert(agent.frames() =~= Seq::<Seq<WallSlice>>::empty());
        (agent, sys)
    }

    /// Whether this builder and `agent` belong together.
    pub fn is_linked(&self, agent: &DisplayAgent) -> (b: bool)
        ensures
            b == linked(*self, *agent),
    {
        if self.inbox.len() > BUFFERS || agent.inbox.len() != BUFFERS - self.inbox.len() {
            return false;
        }
        if self.resolution != agent.resolution {
            return false;
        }
        let ground = Rgb { r: 0x3f, g: 0x7f, b: 0xff };
        let mut i: usize = 0;
        while i < self.inbox.len()
            invariant
                i <= self.inbox.len(),
                ground == sky(),
                forall|k: int| 0 <= k < i ==> (#[trigger] self.inbox[k]).walls@.len() == 0,
                forall|k: int| 0 <= k < i ==> (#[trigger] self.inbox[k]).bg == sky(),
            decreases self.inbox.len() - i,
        {
            if self.inbox[i].walls.len() != 0 || self.inbox[i].bg != ground {
                return false;
            }
            i = i + 1;
        }
        let mut j: usize = 0;
        while j < agent.inbox.len()
            invariant
                j <= agent.inbox.len(),
                ground == sky(),
                forall|k: int| 0 <= k < j ==> (#[trigger] agent.inbox[k]).bg == sky(),
            decreases agent.inbox.len() - j,
        {
            if agent.inbox[j].bg != ground {
                return false;
            }
            j = j + 1;
        }
        true
    }

    /// How many empty display lists wait for the builder.
    pub fn buffers(&self) -> (n: usize)
        ensures
            n == self.free_count(),
    {
        self.inbox.len()
    }

    /// Builds the frame that the camera sees and hands it to the agent, if
    /// an empty display list waits for the builder; does nothing otherwise.
    /// Says whether a frame was built.
    pub fn run(&mut self, agent: &mut DisplayAgent, camera: &Camera3D, level: &LevelMap) -> (built:
        bool)
        requires
            linked(*old(self), *old(agent)),
            camera.wf(),
            level.wf(),
        ensures
            linked(*final(self), *final(agent)),
            final(self).spec_resolution() == old(self).spec_resolution(),
            built == (old(self).free_count() > 0),
            built ==> final(self).free_count() == old(self).free_count() - 1,
            built ==> final(agent).frames() == old(agent).frames().push(
                spec_frame(*camera, *level, camera.dim.x as nat),
            ),
            !built ==> final(self).free_count() == old(self).free_count(),
            !built ==> final(agent).frames() == old(agent).frames(),
    {
        let mut manifest = match self.inbox.pop() {
            Some(manifest) => manifest,
            None => {
                return false;
            },
        };
        let mut pass = Draw { resolution: self.resolution };
        pass.run(&mut manifest, camera, level);
        assert(manifest.walls@ =~= spec_frame(*camera, *level, camera.dim.x as nat));
        agent.inbox.push(manifest);
        assert(agent.frames() =~= old(agent).frames().push(
            spec_frame(*camera, *level, camera.dim.x as nat),
        ));
        true
    }
}

impl DisplayAgent {
    /// The frames that wait for the agent, oldest first: the walls of each.
    pub closed spec fn frames(&self) -> Seq<Seq<WallSlice>> {
        Seq::new(self.inbox.len() as nat, |i: int| self.inbox[i].walls@)
    }

    /// The size of the view.
    pub closed spec fn spec_resolution(&self) -> Vec2u {
        self.resolution
    }

    /// How many frames wait for the agent.
    pub fn pending(&self) -> (n: usize)
        ensures
            n == self.frames().len(),
    {
        self.inbox.len()
    }

    /// Takes the oldest frame that waits for the agent, if there is one,
    /// and returns what is to be put on the screen for it; its display list
    /// goes back to the builder, empty.
    pub fn draw(&mut self, sys: &mut DisplaySys) -> (frame: Option<Frame>)
        requires
            linked(*old(sys), *old(self)),
        ensures
            linked(*final(sys), *final(self)),
            final(self).spec_resolution() == old(self).spec_resolution(),
            frame is Some <==> old(self).frames().len() > 0,
            frame is None ==> final(self).frames() == old(self).frames(),
            frame is None ==> final(sys).free_count() == old(sys).free_count(),
            frame is Some ==> frame->0.bg == sky(),
            frame is Some ==> frame->0.strokes@ == spec_strokes(
                old(self).frames()[0],
                (old(self).spec_resolution().y / 2) as int,
            ),
            frame is Some ==> final(self).frames() == old(self).frames().drop_first(),
            frame is Some ==> final(sys).free_count() == old(sys).free_count() + 1,
    {
        if self.inbox.len() == 0 {
            return None;
        }
        let mut manifest = self.inbox.remove(0);
        assert(self.frames() =~= old(self).frames().drop_first());
        let frame = manifest.present(self.resolution);
        sys.inbox.push(manifest);
        Some(frame)
    }
}

/// However many frames have been built and presented, the display lists
/// that wait for the builder and those that wait for the agent are
/// `BUFFERS` together.
pub proof fn lemma_buffers_conserved(sys: DisplaySys, agent: DisplayAgent)
    requires
        linked(sys, agent),
    ensures
        sys.free_count() + agent.frames().len() == BUFFERS,
{
}

} // verus!
