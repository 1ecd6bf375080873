use vstd::prelude::*;
use crate::errors::ContextError;

verus! {

/// One drawing operation issued to a path context. Coordinate arguments are
/// the raw IEEE-754 bit patterns carried by the points.
#[derive(Clone, Copy, PartialEq, Eq, Structural, Debug)]
pub enum PathCmd {
    /// Begin a fresh path, discarding any current one.
    NewPath,
    /// Begin a new subpath within the current path.
    NewSubPath,
    /// Set the current point without drawing.
    MoveTo { x: u64, y: u64 },
    /// Draw a cubic Bezier segment from the current point through two control
    /// points to an end anchor, which becomes the new current point.
    CurveTo { x1: u64, y1: u64, x2: u64, y2: u64, x3: u64, y3: u64 },
    /// Close the current subpath back to its starting point.
    ClosePath,
}

/// The type of a context's ghost operation log. Outside implementors need
/// the name for the verifier-facing `log` item, which is never called at
/// run time.
pub type CommandLog = Seq<PathCmd>;

/// A stateful 2-D path-construction context, the externally owned
/// collaborator that receives the emitted drawing commands.
///
/// The ghost `log` is the ordered record of every operation issued to the
/// context. Each operation appends the command it attempts whether or not it
/// succeeds — a failing call was still issued, and its effect on the
/// context is not undone. Nothing is promised about which calls succeed:
/// any operation may fail, and the caller must stop at the first failure.
pub trait PathContext {
    /// The operations issued so far, in order.
    spec fn log(&self) -> Seq<PathCmd>;

    /// Begin a fresh path.
    fn new_path(&mut self) -> (r: Result<(), ContextError>)
        ensures
            final(self).log() == old(self).log().push(PathCmd::NewPath),
    ;

    /// Begin a new subpath.
    fn new_sub_path(&mut self) -> (r: Result<(), ContextError>)
        ensures
            final(self).log() == old(self).log().push(PathCmd::NewSubPath),
    ;

    /// Set the current point.
    fn move_to(&mut self, x: u64, y: u64) -> (r: Result<(), ContextError>)
        ensures
            final(self).log() == old(self).log().push(PathCmd::MoveTo { x, y }),
    ;

    /// Draw a cubic Bezier segment from the current point.
    fn curve_to(
        &mut self,
        x1: u64,
        y1: u64,
        x2: u64,
        y2: u64,
        x3: u64,
        y3: u64,
    ) -> (r: Result<(), ContextError>)
        ensures
            final(self).log() == old(self).log().push(
                PathCmd::CurveTo { x1, y1, x2, y2, x3, y3 },
            ),
    ;

    /// Close the current subpath.
    fn close_path(&mut self) -> (r: Result<(), ContextError>)
        ensures
            final(self).log() == old(self).log().push(PathCmd::ClosePath),
    ;
}

/// An in-memory `PathContext` that records the operations issued to it.
/// Operations beyond a configurable budget fail, so the recorder doubles as
/// a fault-injecting context.
pub struct TraceContext {
    /// The operations issued so far, in order.
    pub calls: Vec<PathCmd>,
    /// How many operations may succeed. An operation past the budget is
    /// still recorded but reports a failure.
    pub budget: usize,
}

impl TraceContext {
    /// A recorder whose operations all succeed.
    pub fn new() -> (r: TraceContext)
        ensures
            r.log() == Seq::<PathCmd>::empty(),
            r.budget == usize::MAX,
    {
        TraceContext { calls: Vec::new(), budget: usize::MAX }
    }

    /// A recorder whose first `budget` operations succeed and whose later
    /// operations fail.
    pub fn failing_after(budget: usize) -> (r: TraceContext)
        ensures
            r.log() == Seq::<PathCmd>::empty(),
            r.budget == budget,
    {
        TraceContext { calls: Vec::new(), budget }
    }

    fn record(&mut self, cmd: PathCmd) -> (r: Result<(), ContextError>)
        ensures
            final(self).calls@ == old(self).calls@.push(cmd),
            final(self).budget == old(self).budget,
    {
        self.calls.push(cmd);
        if self.calls.len() > self.budget {
            Err(ContextError)
        } else {
            Ok(())
        }
    }
}

impl PathContext for TraceContext {
    open spec fn log(&self) -> Seq<PathCmd> {
        self.calls@
    }

    fn new_path(&mut self) -> (r: Result<(), ContextError>) {
        self.record(PathCmd::NewPath)
    }

    fn new_sub_path(&mut self) -> (r: Result<(), ContextError>) {
        self.record(PathCmd::NewSubPath)
    }

    fn move_to(&mut self, x: u64, y: u64) -> (r: Result<(), ContextError>) {
        self.record(PathCmd::MoveTo { x, y })
    }

    fn curve_to(
        &mut self,
        x1: u64,
        y1: u64,
        x2: u64,
        y2: u64,
        x3: u64,
        y3: u64,
    ) -> (r: Result<(), ContextError>) {
        self.record(PathCmd::CurveTo { x1, y1, x2, y2, x3, y3 })
    }

    fn close_path(&mut self) -> (r: Result<(), ContextError>) {
        self.record(PathCmd::ClosePath)
    }
}

} // verus!
