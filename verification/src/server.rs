//! The server supervisor state: configuration, the registry of live
//! sessions under unique monotonic ids, shutdown, and the framings of
//! the outbound connection modes.

use vstd::prelude::*;
use crate::rfb::{VncError, ProtocolReason, MIN_DIMENSION, MAX_DIMENSION};
use crate::wire::{spec_u32_be, push_u32_be};

verus! {

/// The fixed size of the repeater rendezvous id field.
pub const REPEATER_ID_LEN: usize = 250;

/// The supervisor's own state.  Sockets, tasks and channels live with
/// the embedding; every decision about them is taken here.
pub struct ServerCore {
    pub width: u16,
    pub height: u16,
    pub desktop_name: Vec<u8>,
    pub password: Option<Vec<u8>>,
    pub next_client_id: u64,
    pub clients: Vec<u64>,
    pub shut: bool,
}

impl ServerCore {
    /// Client ids are positive, unique, and below the next id to give.
    pub open spec fn wf(&self) -> bool {
        &&& self.next_client_id >= 1
        &&& forall|i: int|
            0 <= i < self.clients@.len() ==> 1 <= #[trigger] self.clients@[i]
                < self.next_client_id
        &&& forall|i: int, j: int|
            0 <= i < j < self.clients@.len() ==> self.clients@[i] != self.clients@[j]
    }

    /// Build a supervisor; rejects out-of-range dimensions.
    pub fn new(width: u16, height: u16, desktop_name: Vec<u8>, password: Option<Vec<u8>>) -> (r:
        Result<ServerCore, VncError>)
        ensures
            r is Ok <==> (MIN_DIMENSION <= width <= MAX_DIMENSION && MIN_DIMENSION <= height
                <= MAX_DIMENSION),
            r matches Ok(s) ==> {
                &&& s.wf()
                &&& s.width == width
                &&& s.height == height
                &&& s.desktop_name@ == desktop_name@
                &&& s.password == password
                &&& s.next_client_id == 1
                &&& s.clients@.len() == 0
                &&& !s.shut
            },
            r is Err ==> r matches Err(VncError::InvalidDimensions),
    {
        if width < MIN_DIMENSION || width > MAX_DIMENSION || height < MIN_DIMENSION || height
            > MAX_DIMENSION {
            return Err(VncError::InvalidDimensions);
        }
        Ok(
            ServerCore {
                width,
                height,
                desktop_name,
                password,
                next_client_id: 1,
                clients: Vec::new(),
                shut: false,
            },
        )
    }

    /// Whether classic VNC authentication is required.
    pub fn has_password(&self) -> (r: bool)
        ensures
            r == (self.password is Some),
    {
        self.password.is_some()
    }

    /// Admit a new session: a fresh positive id, larger than every id
    /// given before.  After shutdown no session is admitted.
    pub fn register_client(&mut self) -> (r: Option<u64>)
        requires
            old(self).wf(),
            old(self).next_client_id < u64::MAX,
        ensures
            final(self).wf(),
            old(self).shut ==> r is None && *final(self) == *old(self),
            !old(self).shut ==> (r matches Some(id) && {
                &&& id == old(self).next_client_id
                &&& id >= 1
                &&& final(self).next_client_id == old(self).next_client_id + 1
                &&& final(self).clients@ == old(self).clients@.push(id)
                &&& !old(self).clients@.contains(id)
            }),
            final(self).width == old(self).width,
            final(self).height == old(self).height,
            final(self).desktop_name == old(self).desktop_name,
            final(self).password == old(self).password,
            final(self).shut == old(self).shut,
    {
        if self.shut {
            return None;
        }
        let id: u64 = self.next_client_id;
        proof {
            if self.clients@.contains(id) {
                let i = choose|i: int| 0 <= i < self.clients@.len() && self.clients@[i] == id;
                assert(self.clients@[i] < self.next_client_id);
            }
        }
        self.clients.push(id);
        self.next_client_id = self.next_client_id + 1;
        Some(id)
    }

    /// Drop a session from the registry; true when it was there.
    pub fn remove_client(&mut self, id: u64) -> (r: bool)
        requires
            old(self).wf(),
        ensures
            final(self).wf(),
            r == old(self).clients@.contains(id),
            !final(self).clients@.contains(id),
            forall|x: u64| x != id ==> final(self).clients@.contains(x) == old(
                self,
            ).clients@.contains(x),
            final(self).next_client_id == old(self).next_client_id,
            final(self).width == old(self).width,
            final(self).height == old(self).height,
            final(self).desktop_name == old(self).desktop_name,
            final(self).password == old(self).password,
            final(self).shut == old(self).shut,
    {
        let mut i: usize = 0;
        while i < self.clients.len()
            invariant
                self == old(self),
                self.wf(),
                i <= self.clients@.len(),
                forall|j: int| 0 <= j < i ==> self.clients@[j] != id,
            decreases self.clients@.len() - i,
        {
            if self.clients[i] == id {
                proof {
                    assert(self.clients@.contains(id));
                }
                self.clients.remove(i);
                proof {
                    assert forall|x: u64| x != id implies self.clients@.contains(x) == old(
                        self,
                    ).clients@.contains(x) by {
                        if old(self).clients@.contains(x) {
                            let j = choose|j: int|
                                0 <= j < old(self).clients@.len() && old(self).clients@[j] == x;
                            if j < i {
                                assert(self.clients@[j] == x);
                            } else {
                                assert(self.clients@[j - 1] == x);
                            }
                        } else {
                            if self.clients@.contains(x) {
                                let j = choose|j: int|
                                    0 <= j < self.clients@.len() && self.clients@[j] == x;
                                if j < i {
                                    assert(old(self).clients@[j] == x);
                                } else {
                                    assert(old(self).clients@[j + 1] == x);
                                }
                            }
                        }
                    }
                    assert(!self.clients@.contains(id)) by {
                        if self.clients@.contains(id) {
                            let j = choose|j: int|
                                0 <= j < self.clients@.len() && self.clients@[j] == id;
                            if j < i {
                                assert(old(self).clients@[j] == id);
                            } else {
                                assert(old(self).clients@[j + 1] == id);
                            }
                        }
                    }
                }
                return true;
            }
            i += 1;
        }
        proof {
            assert(!self.clients@.contains(id));
        }
        false
    }

    /// Signal shutdown: the registry empties and stays closed, so no
    /// session remains registered and none can be admitted again.
    pub fn shutdown(&mut self)
        requires
            old(self).wf(),
        ensures
            final(self).wf(),
            final(self).shut,
            final(self).clients@.len() == 0,
            final(self).next_client_id == old(self).next_client_id,
            final(self).width == old(self).width,
            final(self).height == old(self).height,
            final(self).desktop_name == old(self).desktop_name,
            final(self).password == old(self).password,
    {
        self.shut = true;
        self.clients = Vec::new();
    }

    /// How many sessions are registered.
    pub fn client_count(&self) -> (r: usize)
        ensures
            r == self.clients@.len(),
    {
        self.clients.len()
    }
}

impl ServerCore {
    /// A client that did not ask to share the desktop evicts every
    /// other session: afterwards it is the only one registered (or
    /// none, had it already gone).  The evicted ids come back so their
    /// disconnection can be announced.
    pub fn evict_others(&mut self, keep: u64) -> (r: Vec<u64>)
        requires
            old(self).wf(),
        ensures
            final(self).wf(),
            forall|x: u64|
                final(self).clients@.contains(x) == (old(self).clients@.contains(x) && x == keep),
            forall|x: u64|
                r@.contains(x) == (old(self).clients@.contains(x) && x != keep),
            final(self).next_client_id == old(self).next_client_id,
            final(self).width == old(self).width,
            final(self).height == old(self).height,
            final(self).desktop_name == old(self).desktop_name,
            final(self).password == old(self).password,
            final(self).shut == old(self).shut,
    {
        let mut kept: Vec<u64> = Vec::new();
        let mut evicted: Vec<u64> = Vec::new();
        let mut i: usize = 0;
        while i < self.clients.len()
            invariant
                self == old(self),
                self.wf(),
                i <= self.clients@.len(),
                forall|x: u64|
                    kept@.contains(x) == (self.clients@.take(i as int).contains(x) && x == keep),
                forall|x: u64|
                    evicted@.contains(x) == (self.clients@.take(i as int).contains(x) && x
                        != keep),
                forall|j: int| 0 <= j < kept@.len() ==> 1 <= #[trigger] kept@[j] < self.next_client_id,
                kept@.len() <= 1,
            decreases self.clients@.len() - i,
        {
            let id: u64 = self.clients[i];
            proof {
                assert(self.clients@.take(i + 1 as int).drop_last() =~= self.clients@.take(
                    i as int,
                ));
                assert(self.clients@.take(i + 1 as int).last() == id);
                assert forall|x: u64|
                    self.clients@.take(i + 1 as int).contains(x) == (self.clients@.take(
                        i as int,
                    ).contains(x) || x == id) by {
                    if self.clients@.take(i + 1 as int).contains(x) {
                        let j = choose|j: int|
                            0 <= j < i + 1 && #[trigger] self.clients@.take(i + 1 as int)[j] == x;
                        if j < i {
                            assert(self.clients@.take(i as int)[j] == x);
                        }
                    }
                    if self.clients@.take(i as int).contains(x) {
                        let j = choose|j: int|
                            0 <= j < i && self.clients@.take(i as int)[j] == x;
                        assert(self.clients@.take(i + 1 as int)[j] == x);
                    }
                    if x == id {
                        assert(self.clients@.take(i + 1 as int)[i as int] == x);
                    }
                }
            }
            if id == keep {
                proof {
                    if kept@.len() > 0 {
                        assert(kept@.contains(kept@[0]));
                        assert(self.clients@.take(i as int).contains(keep));
                        let j = choose|j: int|
                            0 <= j < i && #[trigger] self.clients@.take(i as int)[j] == keep;
                        assert(self.clients@[j] == self.clients@[i as int]);
                    }
                }
                let ghost kprev = kept@;
                kept.push(id);
                proof {
                    lemma_push_contains(kprev, id);
                }
            } else {
                let ghost eprev = evicted@;
                evicted.push(id);
                proof {
                    lemma_push_contains(eprev, id);
                }
            }
            i += 1;
        }
        proof {
            assert(self.clients@.take(self.clients@.len() as int) =~= self.clients@);
        }
        self.clients = kept;
        evicted
    }
}

/// Pushing onto a list adds exactly one membership.
proof fn lemma_push_contains(s: Seq<u64>, v: u64)
    ensures
        forall|x: u64| #[trigger] s.push(v).contains(x) == (s.contains(x) || x == v),
{
    assert forall|x: u64| #[trigger] s.push(v).contains(x) == (s.contains(x) || x == v) by {
        if s.push(v).contains(x) {
            let j = choose|j: int| 0 <= j < s.push(v).len() && #[trigger] s.push(v)[j] == x;
            if j < s.len() {
                assert(s[j] == x);
            }
        }
        if s.contains(x) {
            let j = choose|j: int| 0 <= j < s.len() && #[trigger] s[j] == x;
            assert(s.push(v)[j] == x);
        }
        assert(s.push(v)[s.len() as int] == v);
    }
}

/// After shutdown nothing is registered and registration yields no id:
/// the supervisor retains no session.
pub proof fn lemma_shutdown_quiesces(s: ServerCore)
    requires
        s.wf(),
        s.shut,
        s.clients@.len() == 0,
    ensures
        forall|id: u64| !s.clients@.contains(id),
{
}

/// The ServerCutText message for a clipboard text.
pub open spec fn spec_cut_text_message(text: Seq<u8>) -> Seq<u8> {
    seq![3u8, 0, 0, 0] + spec_u32_be(text.len() as u32) + text
}

/// Build the ServerCutText message the supervisor enqueues to every
/// live session.
pub fn cut_text_message(text: &Vec<u8>) -> (r: Vec<u8>)
    requires
        text@.len() < 0x100000000,
    ensures
        r@ == spec_cut_text_message(text@),
{
    let mut out: Vec<u8> = Vec::new();
    out.push(3);
    out.push(0);
    out.push(0);
    out.push(0);
    push_u32_be(&mut out, text.len() as u32);
    crate::wire::push_bytes(&mut out, text.as_slice());
    assert(out@ =~= spec_cut_text_message(text@));
    out
}

/// The 250-byte rendezvous field a repeater connection starts with:
/// the id, NUL-padded, never truncated.  An id that does not fit is
/// refused.
pub fn repeater_frame(id: &Vec<u8>) -> (r: Result<Vec<u8>, VncError>)
    ensures
        r is Ok <==> id@.len() <= REPEATER_ID_LEN,
        r matches Ok(v) ==> {
            &&& v@.len() == REPEATER_ID_LEN
            &&& forall|i: int|
                0 <= i < REPEATER_ID_LEN ==> v@[i] == (if i < id@.len() {
                    id@[i]
                } else {
                    0
                })
        },
        r is Err ==> r matches Err(
            VncError::ProtocolError { reason: ProtocolReason::BadRepeaterId },
        ),
{
    if id.len() > REPEATER_ID_LEN {
        return Err(VncError::ProtocolError { reason: ProtocolReason::BadRepeaterId });
    }
    let mut out: Vec<u8> = Vec::new();
    let mut i: usize = 0;
    while i < REPEATER_ID_LEN
        invariant
            id@.len() <= REPEATER_ID_LEN,
            i <= REPEATER_ID_LEN,
            out@.len() == i,
            forall|j: int|
                0 <= j < i ==> out@[j] == (if j < id@.len() {
                    id@[j]
                } else {
                    0
                }),
        decreases REPEATER_ID_LEN - i,
    {
        if i < id.len() {
            out.push(id[i]);
        } else {
            out.push(0);
        }
        i += 1;
    }
    Ok(out)
}

} // verus!
