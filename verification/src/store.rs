use vstd::prelude::*;

verus! {

use crate::error::Error;
use crate::types::{GuestClaims, GuestToken};

/// Mathematical model of one session record.
#[verifier::ext_equal]
pub struct SessionV {
    pub attr_id: Seq<char>,
    pub guest: GuestClaims,
    pub auth_result: Option<Seq<char>>,
    pub created_at: u64,
}

/// The correlation record of one verification attempt: the opaque identifier
/// handed to the authority, the guest's claims, the authenticated result
/// blob once the authority has reported one, and the creation time.
pub struct Session {
    pub attr_id: String,
    pub guest_token: GuestToken,
    pub auth_result: Option<String>,
    pub created_at: u64,
}

impl View for Session {
    type V = SessionV;

    open spec fn view(&self) -> SessionV {
        SessionV {
            attr_id: self.attr_id@,
            guest: self.guest_token@,
            auth_result: match self.auth_result {
                Some(ref b) => Some(b@),
                None => None,
            },
            created_at: self.created_at,
        }
    }
}

impl Session {
    /// A deep copy; the record is unchanged.
    pub fn duplicate(&self) -> (r: Session)
        ensures
            r@ == self@,
    {
        let auth_result = match &self.auth_result {
            Some(b) => Some(b.clone()),
            None => None,
        };
        Session {
            attr_id: self.attr_id.clone(),
            guest_token: self.guest_token.duplicate(),
            auth_result,
            created_at: self.created_at,
        }
    }
}

/// Some session in `s` carries `attr_id`.
pub open spec fn has_attr(s: Seq<SessionV>, attr_id: Seq<char>) -> bool {
    exists|i: int| 0 <= i < s.len() && (#[trigger] s[i]).attr_id == attr_id
}

/// The position of the session carrying `attr_id`.
pub open spec fn idx_of(s: Seq<SessionV>, attr_id: Seq<char>) -> int {
    choose|i: int| 0 <= i < s.len() && (#[trigger] s[i]).attr_id == attr_id
}

/// The session store: every record of every verification attempt, in
/// creation order. `attr_id` is unique across all records and never reused;
/// a record's result is written at most once, first write wins.
pub struct SessionStore {
    sessions: Vec<Session>,
}

impl View for SessionStore {
    type V = Seq<SessionV>;

    closed spec fn view(&self) -> Seq<SessionV> {
        self.sessions@.map_values(|s: Session| s@)
    }
}

impl SessionStore {
    /// No two records share an `attr_id`.
    pub open spec fn wf(&self) -> bool {
        forall|i: int, j: int|
            0 <= i < j < self@.len() ==> (#[trigger] self@[i]).attr_id != (
            #[trigger] self@[j]).attr_id
    }

    /// An empty store.
    pub fn new() -> (r: SessionStore)
        ensures
            r@ == Seq::<SessionV>::empty(),
            r.wf(),
    {
        SessionStore { sessions: Vec::new() }
    }

    /// How many sessions the store holds.
    pub fn len(&self) -> (r: usize)
        ensures
            r == self@.len(),
    {
        self.sessions.len()
    }

    /// Appends a fresh session for `guest_token` under `attr_id`, with no
    /// result yet. When the identifier is already taken the store refuses
    /// the write and nothing changes: uniqueness of `attr_id` is the safety
    /// net under the identifier minting.
    pub fn create(
        &mut self,
        guest_token: GuestToken,
        attr_id: String,
        now: u64,
    ) -> (r: Result<(), Error>)
        requires
            old(self).wf(),
        ensures
            final(self).wf(),
            match r {
                Ok(()) => !has_attr(old(self)@, attr_id@) && final(self)@ == old(self)@.push(
                    SessionV {
                        attr_id: attr_id@,
                        guest: guest_token@,
                        auth_result: None,
                        created_at: now,
                    },
                ),
                Err(e) => e == Error::PersistenceError && has_attr(old(self)@, attr_id@)
                    && final(self)@ == old(self)@,
            },
    {
        if self.holds_attr_id(&attr_id) {
            return Err(Error::PersistenceError);
        }
        let s = Session { attr_id, guest_token, auth_result: None, created_at: now };
        let ghost pre = self@;
        self.sessions.push(s);
        proof {
            assert(self@ =~= pre.push(s@));
        }
        Ok(())
    }

    /// Whether some session carries `attr_id`.
    pub fn holds_attr_id(&self, attr_id: &String) -> (r: bool)
        ensures
            r == has_attr(self@, attr_id@),
    {
        let n = self.sessions.len();
        let mut i: usize = 0;
        while i < n
            invariant
                i <= n,
                n == self@.len(),
                forall|j: int| 0 <= j < i ==> (#[trigger] self@[j]).attr_id != attr_id@,
            decreases n - i,
        {
            if self.sessions[i].attr_id == *attr_id {
                proof {
                    assert(self@[i as int].attr_id == attr_id@);
                }
                return true;
            }
            i += 1;
        }
        false
    }

    /// The session carrying `attr_id`, or `None` when there is none.
    pub fn find_by_attr_id(&self, attr_id: &String) -> (r: Option<&Session>)
        requires
            self.wf(),
        ensures
            match r {
                Some(s) => has_attr(self@, attr_id@) && s@ == self@[idx_of(self@, attr_id@)]
                    && s@.attr_id == attr_id@,
                None => !has_attr(self@, attr_id@),
            },
    {
        let n = self.sessions.len();
        let mut i: usize = 0;
        while i < n
            invariant
                i <= n,
                n == self@.len(),
                self.wf(),
                forall|j: int| 0 <= j < i ==> (#[trigger] self@[j]).attr_id != attr_id@,
            decreases n - i,
        {
            if self.sessions[i].attr_id == *attr_id {
                proof {
                    assert(self@[i as int].attr_id == attr_id@);
                    assert(idx_of(self@, attr_id@) == i) by {
                        let w = idx_of(self@, attr_id@);
                        assert(0 <= w < self@.len() && self@[w].attr_id == attr_id@);
                    }
                }
                return Some(&self.sessions[i]);
            }
            i += 1;
        }
        None
    }

    /// Attaches `blob` to the session carrying `attr_id`. Exactly one write
    /// can ever succeed for one identifier: an unknown identifier is
    /// `SessionNotFound` — never a record made on demand — and a second
    /// write is `Conflict`, leaving the first result in place. In every
    /// failing case the store is unchanged.
    pub fn set_auth_result(&mut self, attr_id: &String, blob: String) -> (r: Result<(), Error>)
        requires
            old(self).wf(),
        ensures
            final(self).wf(),
            match r {
                Ok(()) => has_attr(old(self)@, attr_id@) && old(self)@[idx_of(
                    old(self)@,
                    attr_id@,
                )].auth_result is None && final(self)@ == old(self)@.update(
                    idx_of(old(self)@, attr_id@),
                    SessionV {
                        auth_result: Some(blob@),
                        ..old(self)@[idx_of(old(self)@, attr_id@)]
                    },
                ),
                Err(e) => final(self)@ == old(self)@ && ((e == Error::SessionNotFound && !has_attr(
                    old(self)@,
                    attr_id@,
                )) || (e == Error::Conflict && has_attr(old(self)@, attr_id@) && old(self)@[idx_of(
                    old(self)@,
                    attr_id@,
                )].auth_result is Some)),
            },
    {
        let n = self.sessions.len();
        let mut i: usize = 0;
        while i < n
            invariant
                i <= n,
                n == self@.len(),
                self.wf(),
                self@ == old(self)@,
                forall|j: int| 0 <= j < i ==> (#[trigger] self@[j]).attr_id != attr_id@,
            decreases n - i,
        {
            let ghost pre = old(self)@;
            if self.sessions[i].attr_id == *attr_id {
                proof {
                    assert(pre[i as int].attr_id == attr_id@);
                    assert(idx_of(pre, attr_id@) == i) by {
                        let w = idx_of(pre, attr_id@);
                        assert(0 <= w < pre.len() && pre[w].attr_id == attr_id@);
                    }
                }
                if self.sessions[i].auth_result.is_some() {
                    return Err(Error::Conflict);
                }
                let mut s = self.sessions[i].duplicate();
                s.auth_result = Some(blob);
                self.sessions.set(i, s);
                proof {
                    assert(self@ =~= pre.update(
                        i as int,
                        SessionV { auth_result: Some(blob@), ..pre[i as int] },
                    ));
                    assert forall|a: int, b: int|
                        0 <= a < b < self@.len() implies (#[trigger] self@[a]).attr_id != (
                    #[trigger] self@[b]).attr_id by {
                        assert(self@[a].attr_id == pre[a].attr_id);
                        assert(self@[b].attr_id == pre[b].attr_id);
                    }
                }
                return Ok(());
            }
            i += 1;
        }
        Err(Error::SessionNotFound)
    }

    /// The sessions of one room, in creation order, as deep copies.
    pub fn find_by_room(&self, room_id: &String) -> (r: Vec<Session>)
        ensures
            r@.map_values(|s: Session| s@) == room_sessions(self@, room_id@),
    {
        let n = self.sessions.len();
        let mut out: Vec<Session> = Vec::new();
        let mut i: usize = 0;
        while i < n
            invariant
                i <= n,
                n == self@.len(),
                out@.map_values(|s: Session| s@) == room_sessions(self@.take(i as int), room_id@),
            decreases n - i,
        {
            let ghost pre_take = self@.take(i as int);
            proof {
                assert(self@.take(i + 1).drop_last() =~= pre_take);
                assert(self@.take(i + 1).last() == self@[i as int]);
            }
            if self.sessions[i].guest_token.room_id == *room_id {
                let ghost pre_out = out@;
                out.push(self.sessions[i].duplicate());
                proof {
                    assert(out@.map_values(|s: Session| s@) =~= pre_out.map_values(
                        |s: Session| s@,
                    ).push(self@[i as int]));
                }
            }
            i += 1;
        }
        proof {
            assert(self@.take(n as int) =~= self@);
        }
        out
    }
}

/// The sessions of `s` whose room is `room_id`, in order.
pub open spec fn room_sessions(s: Seq<SessionV>, room_id: Seq<char>) -> Seq<SessionV>
    decreases s.len(),
{
    if s.len() == 0 {
        Seq::empty()
    } else if s.last().guest.room_id == room_id {
        room_sessions(s.drop_last(), room_id).push(s.last())
    } else {
        room_sessions(s.drop_last(), room_id)
    }
}

// ---------------------------------------------------------------------------
// Laws of the store
// ---------------------------------------------------------------------------

/// Creation is immediately observable: after a fresh session is appended
/// for `attr_id`, that identifier is present, it names the appended record,
/// and the record holds no result yet.
pub proof fn lemma_create_then_find(s: Seq<SessionV>, fresh: SessionV)
    requires
        !has_attr(s, fresh.attr_id),
    ensures
        has_attr(s.push(fresh), fresh.attr_id),
        idx_of(s.push(fresh), fresh.attr_id) == s.len(),
        s.push(fresh)[idx_of(s.push(fresh), fresh.attr_id)] == fresh,
{
    let t = s.push(fresh);
    assert(t[s.len() as int] == fresh);
    assert(has_attr(t, fresh.attr_id));
    let w = idx_of(t, fresh.attr_id);
    assert(0 <= w < t.len() && t[w].attr_id == fresh.attr_id);
    if w < s.len() {
        assert(s[w].attr_id == fresh.attr_id);
        assert(has_attr(s, fresh.attr_id));
    }
}

/// First write wins: once a result is recorded for `attr_id`, a later write
/// for the same identifier is refused and the stored result stays what the
/// first write put there.
pub proof fn lemma_first_write_wins(s: Seq<SessionV>, attr_id: Seq<char>, blob: Seq<char>)
    requires
        has_attr(s, attr_id),
        s[idx_of(s, attr_id)].auth_result is None,
        forall|i: int, j: int|
            0 <= i < j < s.len() ==> (#[trigger] s[i]).attr_id != (#[trigger] s[j]).attr_id,
    ensures
        ({
            let after = s.update(
                idx_of(s, attr_id),
                SessionV { auth_result: Some(blob), ..s[idx_of(s, attr_id)] },
            );
            has_attr(after, attr_id) && after[idx_of(after, attr_id)].auth_result == Some(blob)
        }),
{
    let w = idx_of(s, attr_id);
    assert(0 <= w < s.len() && s[w].attr_id == attr_id);
    let after = s.update(w, SessionV { auth_result: Some(blob), ..s[w] });
    assert(after[w].attr_id == attr_id);
    assert(has_attr(after, attr_id));
    let w2 = idx_of(after, attr_id);
    assert(0 <= w2 < after.len() && after[w2].attr_id == attr_id);
    if w2 != w {
        assert(after[w2].attr_id == s[w2].attr_id);
        assert(s[w2].attr_id == s[w].attr_id);
        if w2 < w {
            assert(false);
        } else {
            assert(false);
        }
    }
}

} // verus!
