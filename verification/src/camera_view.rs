//! The camera-view verbs of the Lua surface: `SetView`, `SaveView`, `ResetView`, `NextView`,
//! `PrevView`, `FlipCameraYaw`, `CameraZoomIn` and `CameraZoomOut`.
//!
//! None of them reads the camera: each queues a [`CameraViewRequest`] that the host drains with
//! [`CameraViewQueue::take_camera_view_requests`] and applies to the camera rig. The indexed
//! verbs share one argument rule: the argument must be a number which, truncated toward zero,
//! lies in `1..=5`; anything else is a silent no-op, never an error. The
//! queued index is the internal one, `0..CAMERA_VIEW_COUNT`, so the host never re-checks it.
//!
//! The amount type `A` of the yaw and zoom verbs is the host's number type; nothing here reads it.
use vstd::prelude::*;

verus! {

/// The number of camera views; every indexed verb is bounded by it.
pub const CAMERA_VIEW_COUNT: u8 = 5;

/// One camera-view intent queued by the Lua surface.
#[derive(Clone, Copy, Debug, PartialEq)]
pub enum CameraViewRequest<A> {
    /// `SetView(n)`: make view `n-1` the live one.
    SetView(u8),
    /// `SaveView(n)`: store the live pose into view `n-1`.
    Save(u8),
    /// `ResetView(n)`: put view `n-1` back to its shipped default.
    Reset(u8),
    /// `NextView()`: the view above the current one, if there is one (no wrap).
    Next,
    /// `PrevView()`: the view below the current one, if there is one (no wrap).
    Prev,
    /// `FlipCameraYaw(degrees)`: add this many degrees to the camera's yaw.
    FlipYaw(A),
    /// `CameraZoomIn(amount)`: step the orbit target this many yards toward the head.
    ZoomIn(A),
    /// `CameraZoomOut(amount)`: step it this many yards away from the head.
    ZoomOut(A),
}

/// The view index an indexed verb acts on, from its argument: `None` when the argument is not a
/// number, else the number (already truncated toward zero) kept only in `1..=CAMERA_VIEW_COUNT`,
/// as the internal index `n - 1`.
pub open spec fn view_index(arg: Option<i64>) -> Option<u8> {
    match arg {
        Some(n) => if 1 <= n <= CAMERA_VIEW_COUNT {
            Some((n - 1) as u8)
        } else {
            None
        },
        None => None,
    }
}

/// Every index a queued request carries is an internal view index.
pub open spec fn request_in_range<A>(r: CameraViewRequest<A>) -> bool {
    match r {
        CameraViewRequest::SetView(v) => v < CAMERA_VIEW_COUNT,
        CameraViewRequest::Save(v) => v < CAMERA_VIEW_COUNT,
        CameraViewRequest::Reset(v) => v < CAMERA_VIEW_COUNT,
        _ => true,
    }
}

pub open spec fn all_in_range<A>(rs: Seq<CameraViewRequest<A>>) -> bool {
    forall|i: int| 0 <= i < rs.len() ==> request_in_range(#[trigger] rs[i])
}

/// The shared argument rule of `SetView`, `SaveView` and `ResetView`.
pub fn view_arg(arg: Option<i64>) -> (r: Option<u8>)
    ensures
        r == view_index(arg),
        r matches Some(v) ==> v < CAMERA_VIEW_COUNT,
{
    match arg {
        Some(n) => {
            if 1 <= n && n <= 5 {
                Some((n - 1) as u8)
            } else {
                None
            }
        },
        None => None,
    }
}

/// An indexed verb acts on at most five views, and only on an argument in `1..=5`: whatever the
/// argument, the index it yields is an internal one, one below the argument.
pub proof fn lemma_view_index_in_range(arg: Option<i64>)
    ensures
        view_index(arg) matches Some(v) ==> (v < CAMERA_VIEW_COUNT && (arg matches Some(n) && n == v
            + 1)),
        view_index(arg) is Some <==> (arg matches Some(n) && 1 <= n <= 5),
{
}

/// The requests queued since the host last drained them.
pub struct CameraViewQueue<A> {
    requests: Vec<CameraViewRequest<A>>,
}

impl<A> View for CameraViewQueue<A> {
    type V = Seq<CameraViewRequest<A>>;

    closed spec fn view(&self) -> Seq<CameraViewRequest<A>> {
        self.requests@
    }
}

impl<A> CameraViewQueue<A> {
    #[verifier::type_invariant]
    closed spec fn inv(&self) -> bool {
        all_in_range(self.requests@)
    }
}

impl<A> CameraViewQueue<A> {
    /// Nothing queued.
    pub fn new() -> (q: Self)
        ensures
            q@ == Seq::<CameraViewRequest<A>>::empty(),
    {
        CameraViewQueue { requests: Vec::new() }
    }

    fn queue(&mut self, r: CameraViewRequest<A>)
        requires
            request_in_range(r),
        ensures
            final(self)@ == old(self)@.push(r),
    {
        proof {
            use_type_invariant(&*self);
        }
        let mut rs: Vec<CameraViewRequest<A>> = Vec::new();
        std::mem::swap(&mut rs, &mut self.requests);
        rs.push(r);
        proof {
            assert forall|i: int| 0 <= i < rs@.len() implies request_in_range(#[trigger] rs@[i]) by {
                if i < rs@.len() - 1 {
                    assert(rs@[i] == old(self)@[i]);
                }
            }
        }
        self.requests = rs;
    }

    /// `SetView(n)`: queue `SetView(n - 1)` when the argument passes the view rule, else nothing.
    pub fn set_view(&mut self, arg: Option<i64>)
        ensures
            final(self)@ == match view_index(arg) {
                Some(v) => old(self)@.push(CameraViewRequest::SetView(v)),
                None => old(self)@,
            },
    {
        if let Some(v) = view_arg(arg) {
            self.queue(CameraViewRequest::SetView(v));
        }
    }

    /// `SaveView(n)`: queue `Save(n - 1)` when the argument passes the view rule, else nothing.
    pub fn save_view(&mut self, arg: Option<i64>)
        ensures
            final(self)@ == match view_index(arg) {
                Some(v) => old(self)@.push(CameraViewRequest::Save(v)),
                None => old(self)@,
            },
    {
        if let Some(v) = view_arg(arg) {
            self.queue(CameraViewRequest::Save(v));
        }
    }

    /// `ResetView(n)`: queue `Reset(n - 1)` when the argument passes the view rule, else nothing.
    pub fn reset_view(&mut self, arg: Option<i64>)
        ensures
            final(self)@ == match view_index(arg) {
                Some(v) => old(self)@.push(CameraViewRequest::Reset(v)),
                None => old(self)@,
            },
    {
        if let Some(v) = view_arg(arg) {
            self.queue(CameraViewRequest::Reset(v));
        }
    }

    /// `NextView()`: always queued; the host stops at the last view.
    pub fn next_view(&mut self)
        ensures
            final(self)@ == old(self)@.push(CameraViewRequest::Next),
    {
        self.queue(CameraViewRequest::Next);
    }

    /// `PrevView()`: always queued; the host stops at the first view.
    pub fn prev_view(&mut self)
        ensures
            final(self)@ == old(self)@.push(CameraViewRequest::Prev),
    {
        self.queue(CameraViewRequest::Prev);
    }

    /// `FlipCameraYaw(degrees)`: queued with the degrees, fraction kept, when the argument is a
    /// number; a silent no-op otherwise.
    pub fn flip_camera_yaw(&mut self, degrees: Option<A>)
        ensures
            final(self)@ == match degrees {
                Some(d) => old(self)@.push(CameraViewRequest::FlipYaw(d)),
                None => old(self)@,
            },
    {
        if let Some(d) = degrees {
            self.queue(CameraViewRequest::FlipYaw(d));
        }
    }

    /// `CameraZoomIn(amount)`: always queued; an absent or non-number amount is one `notch`.
    pub fn camera_zoom_in(&mut self, amount: Option<A>, notch: A)
        ensures
            final(self)@ == old(self)@.push(
                CameraViewRequest::ZoomIn(
                    match amount {
                        Some(a) => a,
                        None => notch,
                    },
                ),
            ),
    {
        let a = match amount {
            Some(a) => a,
            None => notch,
        };
        self.queue(CameraViewRequest::ZoomIn(a));
    }

    /// `CameraZoomOut(amount)`: always queued; an absent or non-number amount is one `notch`.
    pub fn camera_zoom_out(&mut self, amount: Option<A>, notch: A)
        ensures
            final(self)@ == old(self)@.push(
                CameraViewRequest::ZoomOut(
                    match amount {
                        Some(a) => a,
                        None => notch,
                    },
                ),
            ),
    {
        let a = match amount {
            Some(a) => a,
            None => notch,
        };
        self.queue(CameraViewRequest::ZoomOut(a));
    }

    /// Drain the requests queued since the last call, in the order they were queued; the queue
    /// is empty afterwards, so a second call returns nothing. Every index handed out is an
    /// internal view index.
    pub fn take_camera_view_requests(&mut self) -> (r: Vec<CameraViewRequest<A>>)
        ensures
            r@ == old(self)@,
            final(self)@ == Seq::<CameraViewRequest<A>>::empty(),
            all_in_range(r@),
    {
        proof {
            use_type_invariant(&*self);
        }
        let mut rs: Vec<CameraViewRequest<A>> = Vec::new();
        std::mem::swap(&mut rs, &mut self.requests);
        rs
    }

    /// How many requests wait.
    pub fn len(&self) -> (n: usize)
        ensures
            n == self@.len(),
    {
        self.requests.len()
    }
}

} // verus!
