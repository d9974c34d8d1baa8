//! The lock screen: the grid points touched while drawing, each once, the
//! text sent to unlock, and the steps from locked to unlocked.
use vstd::prelude::*;
use crate::text::digit_char;

verus! {

/// The points of the unlock pattern drawn so far, numbered 1 to 9 row by row.
pub struct DrawnPattern {
    points: Vec<u8>,
}

impl DrawnPattern {
    /// The points, in the order they were touched.
    pub closed spec fn points(&self) -> Seq<u8> {
        self.points@
    }

    /// No point drawn yet.
    pub fn new() -> (r: Self)
        ensures
            r.points() == Seq::<u8>::empty(),
    {
        DrawnPattern { points: Vec::new() }
    }

    /// Starts a new drawing.
    pub fn clear(&mut self)
        ensures
            final(self).points() == Seq::<u8>::empty(),
    {
        self.points = Vec::new();
    }

    /// The pointer touched `point`: it is added unless it was touched before.
    pub fn touch(&mut self, point: u8)
        ensures
            final(self).points() == if old(self).points().contains(point) { old(self).points() } else { old(self).points().push(point) },
    {
        let mut i: usize = 0;
        while i < self.points.len()
            invariant
                i <= self.points.len(),
                self.points@ == old(self).points@,
                forall|j: int| 0 <= j < i ==> self.points@[j] != point,
            decreases self.points.len() - i,
        {
            if self.points[i] == point {
                assert(old(self).points().contains(point)) by {
                    assert(self.points@[i as int] == point);
                }
                return;
            }
            i += 1;
        }
        self.points.push(point);
    }

    /// The text sent to unlock: the numbers of the points in drawing order.
    pub fn pattern_text(&self) -> (r: String)
        requires
            forall|i: int| 0 <= i < self.points().len() ==> 1 <= #[trigger] self.points()[i] <= 9,
        ensures
            r@ == self.points().map_values(|p: u8| digit_char(p as nat)),
    {
        let mut s = String::new();
        let mut i: usize = 0;
        while i < self.points.len()
            invariant
                i <= self.points.len(),
                forall|k: int| 0 <= k < self.points().len() ==> 1 <= #[trigger] self.points()[k] <= 9,
                s@ == self.points@.take(i as int).map_values(|p: u8| digit_char(p as nat)),
            decreases self.points.len() - i,
        {
            let p = self.points[i];
            assert(self.points()[i as int] == p);
            assert(1 <= p <= 9);
            let t = crate::text::u64_text(p as u64);
            assert(t@ =~= seq![digit_char(p as nat)]);
            let ghost before = s@;
            s.append(t.as_str());
            assert(self.points@.take(i as int + 1).map_values(|q: u8| digit_char(q as nat))
                =~= self.points@.take(i as int).map_values(|q: u8| digit_char(q as nat)).push(digit_char(p as nat)));
            assert(s@ =~= before.push(digit_char(p as nat)));
            i += 1;
        }
        assert(self.points@.take(i as int) =~= self.points@);
        s
    }
}

/// Where the lock screen stands.
#[derive(Debug, Clone, Copy, PartialEq, Eq, Structural)]
pub enum LockPhase {
    /// Waiting for a pattern.
    Locked,
    /// A pattern was sent; waiting for the reply.
    Unlocking,
    /// The app is open.
    Unlocked,
}

/// The message shown when no back end is left to unlock with.
pub open spec fn backend_missing_text() -> Seq<char> {
    "Unlock backend is not available"@
}

/// The label above the grid while `phase` holds.
pub open spec fn lock_status_text(phase: LockPhase) -> Seq<char> {
    if phase == LockPhase::Unlocking {
        "Unlocking..."@
    } else {
        "Draw unlock pattern"@
    }
}

/// The lock screen: its phase, the pattern being drawn, the message shown
/// under the grid, and whether the back end is still there to unlock with.
pub struct LockScreen {
    pub phase: LockPhase,
    pub pattern: DrawnPattern,
    pub message: Option<String>,
    pub has_backend: bool,
}

impl LockScreen {
    /// Every drawn point is one of the nine grid points.
    pub open spec fn points_on_grid(&self) -> bool {
        forall|i: int| 0 <= i < self.pattern.points().len() ==> 1 <= #[trigger] self.pattern.points()[i] <= 9
    }

    /// A locked screen with nothing drawn and its back end at hand.
    pub fn new() -> (r: Self)
        ensures
            r.phase == LockPhase::Locked,
            r.pattern.points() == Seq::<u8>::empty(),
            r.message is None,
            r.has_backend,
            r.points_on_grid(),
    {
        LockScreen { phase: LockPhase::Locked, pattern: DrawnPattern::new(), message: None, has_backend: true }
    }

    /// The label above the grid.
    pub fn status_label(&self) -> (r: &'static str)
        ensures
            r@ == lock_status_text(self.phase),
    {
        proof {
            reveal_strlit("Unlocking...");
            reveal_strlit("Draw unlock pattern");
        }
        match self.phase {
            LockPhase::Unlocking => "Unlocking...",
            _ => "Draw unlock pattern",
        }
    }

    /// Sends the drawn pattern: returns its text for the unlock request, and
    /// the screen waits for the reply. The drawing and the message are cleared
    /// first; without a back end nothing is sent and the screen says so.
    pub fn start_unlock(&mut self) -> (r: Option<String>)
        requires
            old(self).points_on_grid(),
        ensures
            final(self).pattern.points() == Seq::<u8>::empty(),
            final(self).has_backend == old(self).has_backend,
            final(self).points_on_grid(),
            old(self).has_backend ==> {
                &&& r matches Some(text) && text@ == old(self).pattern.points().map_values(|p: u8| digit_char(p as nat))
                &&& final(self).phase == LockPhase::Unlocking
                &&& final(self).message is None
            },
            !old(self).has_backend ==> {
                &&& r is None
                &&& final(self).phase == old(self).phase
                &&& final(self).message matches Some(m) && m@ == backend_missing_text()
            },
    {
        let text = self.pattern.pattern_text();
        self.pattern.clear();
        self.message = None;
        if !self.has_backend {
            proof {
                reveal_strlit("Unlock backend is not available");
            }
            self.message = Some("Unlock backend is not available".to_owned());
            return None;
        }
        self.phase = LockPhase::Unlocking;
        Some(text)
    }

    /// A drag on the grid began: a new drawing starts and the message goes.
    /// Nothing changes while a pattern is being checked.
    pub fn drag_started(&mut self)
        requires
            old(self).points_on_grid(),
        ensures
            final(self).phase == old(self).phase,
            final(self).has_backend == old(self).has_backend,
            final(self).points_on_grid(),
            old(self).phase != LockPhase::Unlocking ==> final(self).pattern.points() == Seq::<u8>::empty()
                && final(self).message is None,
            old(self).phase == LockPhase::Unlocking ==> final(self).pattern.points() == old(self).pattern.points()
                && final(self).message == old(self).message,
    {
        if self.phase != LockPhase::Unlocking {
            self.pattern.clear();
            self.message = None;
        }
    }

    /// The pointer was dragged over grid point `point` (`1..9`): it joins the
    /// drawing unless it is in it already. Nothing changes while a pattern is
    /// being checked.
    pub fn dragged_over(&mut self, point: u8)
        requires
            old(self).points_on_grid(),
            1 <= point <= 9,
        ensures
            final(self).phase == old(self).phase,
            final(self).has_backend == old(self).has_backend,
            final(self).message == old(self).message,
            final(self).points_on_grid(),
            final(self).pattern.points() == if old(self).phase == LockPhase::Unlocking || old(self).pattern.points().contains(point) {
                old(self).pattern.points()
            } else {
                old(self).pattern.points().push(point)
            },
    {
        if self.phase != LockPhase::Unlocking {
            self.pattern.touch(point);
        }
    }

    /// The drag stopped: the drawing is sent as `start_unlock` does. Nothing
    /// changes, and nothing is sent, while a pattern is being checked.
    pub fn drag_stopped(&mut self) -> (r: Option<String>)
        requires
            old(self).points_on_grid(),
        ensures
            final(self).points_on_grid(),
            final(self).has_backend == old(self).has_backend,
            old(self).phase == LockPhase::Unlocking ==> r is None && final(self).phase == old(self).phase
                && final(self).pattern.points() == old(self).pattern.points() && final(self).message == old(self).message,
            old(self).phase != LockPhase::Unlocking ==> final(self).pattern.points() == Seq::<u8>::empty(),
            old(self).phase != LockPhase::Unlocking && old(self).has_backend ==> {
                &&& r matches Some(text) && text@ == old(self).pattern.points().map_values(|p: u8| digit_char(p as nat))
                &&& final(self).phase == LockPhase::Unlocking
                &&& final(self).message is None
            },
            old(self).phase != LockPhase::Unlocking && !old(self).has_backend ==> {
                &&& r is None
                &&& final(self).phase == old(self).phase
                &&& final(self).message matches Some(m) && m@ == backend_missing_text()
            },
    {
        if self.phase == LockPhase::Unlocking {
            return None;
        }
        self.start_unlock()
    }

    /// The reply to the unlock request came. A refusal locks the screen again
    /// with its message. An acceptance takes the back end to open the app
    /// (the result says so, and `app_opened` reports how that went); with no
    /// back end left the screen locks again and says so. A reply while no
    /// request is open changes nothing.
    pub fn poll_unlock(&mut self, reply: Result<(), String>) -> (open_app: bool)
        requires
            old(self).points_on_grid(),
        ensures
            final(self).points_on_grid(),
            final(self).pattern.points() == old(self).pattern.points(),
            old(self).phase != LockPhase::Unlocking ==> !open_app && final(self).phase == old(self).phase
                && final(self).message == old(self).message && final(self).has_backend == old(self).has_backend,
            old(self).phase == LockPhase::Unlocking ==> match reply {
                Err(e) => {
                    &&& !open_app
                    &&& final(self).phase == LockPhase::Locked
                    &&& final(self).message == Some(e)
                    &&& final(self).has_backend == old(self).has_backend
                },
                Ok(_) => if old(self).has_backend {
                    &&& open_app
                    &&& !final(self).has_backend
                    &&& final(self).phase == LockPhase::Unlocking
                    &&& final(self).message == old(self).message
                } else {
                    &&& !open_app
                    &&& !final(self).has_backend
                    &&& final(self).phase == LockPhase::Locked
                    &&& final(self).message matches Some(m) && m@ == backend_missing_text()
                },
            },
    {
        if self.phase != LockPhase::Unlocking {
            return false;
        }
        match reply {
            Err(e) => {
                self.message = Some(e);
                self.phase = LockPhase::Locked;
                false
            },
            Ok(_) => {
                if !self.has_backend {
                    proof {
                        reveal_strlit("Unlock backend is not available");
                    }
                    self.message = Some("Unlock backend is not available".to_owned());
                    self.phase = LockPhase::Locked;
                    return false;
                }
                self.has_backend = false;
                true
            },
        }
    }

    /// How opening the app went after an accepted pattern: open, or locked
    /// again with the error's message.
    pub fn app_opened(&mut self, result: Result<(), String>)
        requires
            old(self).points_on_grid(),
        ensures
            final(self).points_on_grid(),
            final(self).pattern.points() == old(self).pattern.points(),
            final(self).has_backend == old(self).has_backend,
            match result {
                Ok(_) => final(self).phase == LockPhase::Unlocked && final(self).message == old(self).message,
                Err(e) => final(self).phase == LockPhase::Locked && final(self).message == Some(e),
            },
    {
        match result {
            Ok(_) => {
                self.phase = LockPhase::Unlocked;
            },
            Err(e) => {
                self.message = Some(e);
                self.phase = LockPhase::Locked;
            },
        }
    }
}

/// A drawn pattern touches no point twice.
pub proof fn lemma_touching_keeps_points_distinct(before: Seq<u8>, point: u8)
    requires
        forall|i: int, j: int| 0 <= i < j < before.len() ==> before[i] != before[j],
    ensures
        ({
            let after = if before.contains(point) { before } else { before.push(point) };
            forall|i: int, j: int| 0 <= i < j < after.len() ==> after[i] != after[j]
        }),
{
    if !before.contains(point) {
        let after = before.push(point);
        assert forall|i: int, j: int| 0 <= i < j < after.len() implies after[i] != after[j] by {
            if j == before.len() {
                assert(after[i] == before[i]);
            }
        }
    }
}

} // verus!
