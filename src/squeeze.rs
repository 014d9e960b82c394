//! Collapsing runs of identical full lines into a single `*` marker.
use vstd::prelude::*;
use vstd::slice::slice_to_vec;

verus! {

/// What to do with one full line.
#[derive(Clone, Copy, Debug, PartialEq, Eq, Structural)]
pub enum LineAction {
    /// Render the line.
    Print,
    /// Emit the `*` marker in place of the line.
    Marker,
    /// Emit nothing.
    Suppress,
}

/// The abstract state of a [`Squeezer`]: the previous full line, if any, and
/// whether the current run of repeats has had its marker.
pub struct SqueezeView {
    pub prev: Option<Seq<u8>>,
    pub squeezing: bool,
}

impl SqueezeView {
    pub open spec fn initial() -> SqueezeView {
        SqueezeView { prev: None, squeezing: false }
    }

    /// The state after seeing `line`, and what to do with it: a line that
    /// differs from its predecessor (or has none) is printed; the first
    /// repeat becomes the marker; later repeats are suppressed.
    pub open spec fn step(self, line: Seq<u8>) -> (SqueezeView, LineAction) {
        if self.prev == Some(line) {
            if self.squeezing {
                (SqueezeView { prev: Some(line), squeezing: true }, LineAction::Suppress)
            } else {
                (SqueezeView { prev: Some(line), squeezing: true }, LineAction::Marker)
            }
        } else {
            (SqueezeView { prev: Some(line), squeezing: false }, LineAction::Print)
        }
    }

    /// The state after seeing `lines` in order, and the action for each.
    pub open spec fn run(self, lines: Seq<Seq<u8>>) -> (SqueezeView, Seq<LineAction>)
        decreases lines.len(),
    {
        if lines.len() == 0 {
            (self, Seq::empty())
        } else {
            let (mid, actions) = self.run(lines.drop_last());
            let (last, action) = mid.step(lines.last());
            (last, actions.push(action))
        }
    }
}

/// Tells whether two buffers of equal length hold the same bytes.
pub fn vecs_match(b1: &[u8], b2: &[u8]) -> (r: bool)
    requires
        b1@.len() == b2@.len(),
    ensures
        r == (b1@ == b2@),
{
    let mut i: usize = 0;
    while i < b1.len()
        invariant
            i <= b1@.len(),
            b1@.len() == b2@.len(),
            forall|j: int| 0 <= j < i ==> b1@[j] == b2@[j],
        decreases b1@.len() - i,
    {
        if b2[i] != b1[i] {
            return false;
        }
        i += 1;
    }
    assert(b1@ =~= b2@);
    true
}

/// The state of duplicate-line detection over a stream of full lines.
pub struct Squeezer {
    prev: Option<Vec<u8>>,
    squeezing: bool,
}

impl View for Squeezer {
    type V = SqueezeView;

    closed spec fn view(&self) -> SqueezeView {
        SqueezeView {
            prev: match self.prev {
                Some(v) => Some(v@),
                None => None,
            },
            squeezing: self.squeezing,
        }
    }
}

impl Squeezer {
    /// A squeezer that has seen no line yet.
    pub fn new() -> (s: Squeezer)
        ensures
            s@ == SqueezeView::initial(),
    {
        Squeezer { prev: None, squeezing: false }
    }

    /// Records `line` and says what to do with it.
    pub fn observe(&mut self, line: &[u8]) -> (action: LineAction)
        ensures
            (final(self)@, action) == old(self)@.step(line@),
    {
        let same = match &self.prev {
            Some(p) => p.len() == line.len() && vecs_match(p.as_slice(), line),
            None => false,
        };
        let action = if same {
            if self.squeezing {
                LineAction::Suppress
            } else {
                LineAction::Marker
            }
        } else {
            LineAction::Print
        };
        self.squeezing = same;
        self.prev = Some(slice_to_vec(line));
        action
    }
}

proof fn lemma_run_of_copies(state: SqueezeView, line: Seq<u8>, n: nat)
    requires
        n >= 1,
        state.prev != Some(line),
    ensures
        state.run(Seq::new(n, |_i: int| line)).0 == (SqueezeView { prev: Some(line), squeezing: n >= 2 }),
        n >= 2 ==> state.run(Seq::new(n, |_i: int| line)).1
            == seq![LineAction::Print, LineAction::Marker] + Seq::new((n - 2) as nat, |_i: int| LineAction::Suppress),
        n == 1 ==> state.run(Seq::new(n, |_i: int| line)).1 == seq![LineAction::Print],
    decreases n,
{
    let lines = Seq::new(n, |_i: int| line);
    assert(lines.drop_last() =~= Seq::new((n - 1) as nat, |_i: int| line));
    if n == 1 {
        assert(state.run(lines.drop_last()) == (state, Seq::<LineAction>::empty()));
        assert(state.run(lines).1 =~= seq![LineAction::Print]);
    } else {
        lemma_run_of_copies(state, line, (n - 1) as nat);
        if n == 2 {
            assert(state.run(lines).1 =~= seq![LineAction::Print, LineAction::Marker]);
        } else {
            assert(state.run(lines).1 =~= seq![LineAction::Print, LineAction::Marker] + Seq::new(
                (n - 2) as nat,
                |_i: int| LineAction::Suppress,
            ));
        }
    }
}

/// A run of `n >= 2` identical lines after a different one (or at the
/// start) gives the first line printed, then one marker, then nothing for
/// the rest of the run.
pub proof fn law_run_collapses(state: SqueezeView, line: Seq<u8>, n: nat)
    requires
        n >= 2,
        state.prev != Some(line),
    ensures
        state.run(Seq::new(n, |_i: int| line)).1
            == seq![LineAction::Print, LineAction::Marker] + Seq::new((n - 2) as nat, |_i: int| LineAction::Suppress),
{
    lemma_run_of_copies(state, line, n);
}

} // verus!
