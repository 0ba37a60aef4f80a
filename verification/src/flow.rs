use vstd::prelude::*;

verus! {

use crate::authres::{
    accept,
    accept_spec,
    lemma_accepted_projects,
    project,
    project_spec,
    result_claims_of,
    result_exp_of,
};
use crate::codec::{guest_verify_spec, host_verify_spec, payload_of, verify_guest, verify_host};
use crate::error::Error;
use crate::store::{has_attr, idx_of, lemma_create_then_find, room_sessions, SessionStore, SessionV};
use crate::types::GuestClaims;
use crate::types::HostClaims;
use crate::upstream::{ClientUrlResponse, StartRequest, parse_client_url_response, client_url_of};

/// Process-wide configuration, built once at startup and read-only after:
/// the three trust keys — guest and host tokens live in distinct trust
/// domains and must never share a validator, the result key authenticates
/// the authority's blobs — the authority's address, this broker's own
/// callback address, and the chosen read-path expiration posture.
pub struct Config {
    pub guest_key: Vec<u8>,
    pub host_key: Vec<u8>,
    pub result_key: Vec<u8>,
    pub core_url: String,
    pub internal_url: String,
    pub enforce_expiration_on_read: bool,
}

/// The broker: the configuration and the session store. One value of this
/// type is the whole service state; the transport around it only moves
/// strings in and out.
pub struct Broker {
    pub config: Config,
    pub store: SessionStore,
}

impl Broker {
    /// The store's records are well formed: no `attr_id` is carried twice.
    pub open spec fn wf(&self) -> bool {
        self.store.wf()
    }
}

/// Assembles the broker a launch starts from: the given configuration over
/// an empty session store.
pub fn rocket(config: Config) -> (b: Broker)
    ensures
        b.config == config,
        b.store@ == Seq::<SessionV>::empty(),
        b.wf(),
{
    Broker { config, store: SessionStore::new() }
}

/// Relies on rand's `Alphanumeric` distribution over the thread rng
/// (`DistString::sample_string`): a fresh random string of exactly `len`
/// alphanumeric characters. Nothing more is promised of it — in particular
/// not uniqueness, which the session store enforces instead.
#[verifier::external_body]
fn random_token(len: usize) -> (r: String)
    ensures
        r@.len() == len,
{
    rand::distributions::DistString::sample_string(
        &rand::distributions::Alphanumeric,
        &mut rand::thread_rng(),
        len,
    )
}

/// One entry of a host's view: the guest's display name, and the projected
/// claim set when the session holds a result that still passes.
pub open spec fn entry_of(sv: SessionV, key: Seq<u8>, now: u64, enforce: bool) -> (
    Seq<char>,
    Option<Seq<char>>,
) {
    (
        sv.guest.name,
        match sv.auth_result {
            None => None,
            Some(b) => project_spec(b, key, now, enforce),
        },
    )
}

/// A host's whole view of a room's sessions, in creation order.
pub open spec fn infos_of(
    roomlist: Seq<SessionV>,
    key: Seq<u8>,
    now: u64,
    enforce: bool,
) -> Seq<(Seq<char>, Option<Seq<char>>)> {
    roomlist.map_values(|sv: SessionV| entry_of(sv, key, now, enforce))
}

/// The model of one returned entry.
pub open spec fn pair_view(p: (String, Option<String>)) -> (Seq<char>, Option<Seq<char>>) {
    (
        p.0@,
        match p.1 {
            Some(ref b) => Some(b@),
            None => None,
        },
    )
}

impl Broker {
    /// Begins a session: verifies the guest token in the guest trust
    /// domain, mints a fresh 64-character identifier, persists the session
    /// — before any word reaches the authority, so a callback can never
    /// race ahead of the row — and hands back the start request the
    /// transport must post to the authority. A rejected token leaves the
    /// store untouched; a minted identifier the store already holds is
    /// refused as `PersistenceError`.
    pub fn start(&mut self, auth_method: String, guest_token: &str, now: u64) -> (r: Result<
        StartRequest,
        Error,
    >)
        requires
            old(self).wf(),
        ensures
            final(self).wf(),
            final(self).config == old(self).config,
            match r {
                Ok(req) => ({
                    let v = guest_verify_spec(guest_token@, old(self).config.guest_key@, now);
                    &&& v is Ok
                    &&& req@.purpose == v->Ok_0.purpose
                    &&& req@.auth_method == auth_method@
                    &&& req@.comm_url == v->Ok_0.redirect_url
                    &&& req@.attr_url == old(self).config.internal_url@ + "/auth_result/"@
                        + req@.attr_id
                    &&& req@.attr_id.len() == 64
                    &&& !has_attr(old(self).store@, req@.attr_id)
                    &&& final(self).store@ == old(self).store@.push(
                        SessionV {
                            attr_id: req@.attr_id,
                            guest: v->Ok_0,
                            auth_result: None,
                            created_at: now,
                        },
                    )
                }),
                Err(e) => ({
                    let v = guest_verify_spec(guest_token@, old(self).config.guest_key@, now);
                    &&& final(self).store@ == old(self).store@
                    &&& (v == Err::<GuestClaims, Error>(e) || (v is Ok && e
                        == Error::PersistenceError && exists|id: Seq<char>|
                        id.len() == 64 && #[trigger] has_attr(old(self).store@, id)))
                }),
            },
    {
        let gt = match verify_guest(guest_token, self.config.guest_key.as_slice(), now) {
            Ok(v) => v,
            Err(e) => {
                return Err(e);
            },
        };
        let attr_id = random_token(64);
        let mut attr_url = self.config.internal_url.clone();
        attr_url.append("/auth_result/");
        attr_url.append(attr_id.as_str());
        let req = StartRequest {
            purpose: gt.purpose.clone(),
            auth_method,
            comm_url: gt.redirect_url.clone(),
            attr_url,
            attr_id: attr_id.clone(),
        };
        let ghost minted = attr_id@;
        match self.store.create(gt, attr_id, now) {
            Ok(()) => Ok(req),
            Err(e) => {
                // The store refuses only a collision, so a 64-character
                // identifier is already held: with none held, success is owed.
                proof {
                    assert(minted.len() == 64 && has_attr(old(self).store@, minted));
                }
                Err(e)
            },
        }
    }

    /// Completes a start: parses the authority's response body, which the
    /// transport fetched, failing closed on any unexpected shape. The
    /// response is relayed verbatim — nothing of it is rewritten.
    pub fn start_finish(&self, body: &str) -> (r: Result<ClientUrlResponse, Error>)
        ensures
            match r {
                Ok(resp) => client_url_of(body@) == Some(resp@),
                Err(e) => e == Error::UpstreamError && client_url_of(body@) is None,
            },
    {
        parse_client_url_response(body)
    }

    /// The authority's callback: authenticates the inbound blob under the
    /// result key — a forged or already-expired blob aborts the write with
    /// `CryptoError` and nothing is stored — then records it for
    /// `attr_id`, first write wins. An unknown `attr_id` is
    /// `SessionNotFound`, never a record made on demand.
    pub fn submit_result(&mut self, attr_id: &String, blob: String, now: u64) -> (r: Result<
        (),
        Error,
    >)
        requires
            old(self).wf(),
        ensures
            final(self).wf(),
            final(self).config == old(self).config,
            match r {
                Ok(()) => ({
                    &&& accept_spec(blob@, old(self).config.result_key@, now) is Ok
                    &&& has_attr(old(self).store@, attr_id@)
                    &&& old(self).store@[idx_of(old(self).store@, attr_id@)].auth_result is None
                    &&& final(self).store@ == old(self).store@.update(
                        idx_of(old(self).store@, attr_id@),
                        SessionV {
                            auth_result: Some(blob@),
                            ..old(self).store@[idx_of(old(self).store@, attr_id@)]
                        },
                    )
                }),
                Err(e) => ({
                    let acc = accept_spec(blob@, old(self).config.result_key@, now);
                    &&& final(self).store@ == old(self).store@
                    &&& (acc == Err::<(), Error>(e) || (acc is Ok && ((e == Error::SessionNotFound
                        && !has_attr(old(self).store@, attr_id@)) || (e == Error::Conflict
                        && has_attr(old(self).store@, attr_id@) && old(self).store@[idx_of(
                        old(self).store@,
                        attr_id@,
                    )].auth_result is Some))))
                }),
            },
    {
        match accept(blob.as_str(), self.config.result_key.as_slice(), now) {
            Ok(()) => {},
            Err(e) => {
                return Err(e);
            },
        }
        self.store.set_auth_result(attr_id, blob)
    }

    /// A host's poll: verifies the host token in the host trust domain,
    /// gathers exactly the sessions of the token's room, and projects each
    /// stored result under the configured posture. A session with no result
    /// — or one whose blob no longer passes — appears as its guest's name
    /// with nothing attached; only a rejected host token is an error.
    pub fn session_info(&self, host_token: &str, now: u64) -> (r: Result<
        Vec<(String, Option<String>)>,
        Error,
    >)
        requires
            self.wf(),
        ensures
            match r {
                Ok(v) => ({
                    let hv = host_verify_spec(host_token@, self.config.host_key@, now);
                    &&& hv is Ok
                    &&& v@.map_values(|p: (String, Option<String>)| pair_view(p)) == infos_of(
                        room_sessions(self.store@, hv->Ok_0.room_id),
                        self.config.result_key@,
                        now,
                        self.config.enforce_expiration_on_read,
                    )
                }),
                Err(e) => host_verify_spec(host_token@, self.config.host_key@, now) == Err::<
                    HostClaims,
                    Error,
                >(e),
            },
    {
        let ht = match verify_host(host_token, self.config.host_key.as_slice(), now) {
            Ok(v) => v,
            Err(e) => {
                return Err(e);
            },
        };
        let sessions = self.store.find_by_room(&ht.room_id);
        let ghost roomlist = room_sessions(self.store@, ht@.room_id);
        proof {
            assert(sessions@.map_values(|s: crate::store::Session| s@) == roomlist);
        }
        let n = sessions.len();
        let mut out: Vec<(String, Option<String>)> = Vec::new();
        let mut i: usize = 0;
        while i < n
            invariant
                i <= n,
                n == sessions@.len(),
                sessions@.map_values(|s: crate::store::Session| s@) == roomlist,
                out@.map_values(|p: (String, Option<String>)| pair_view(p)) == infos_of(
                    roomlist.take(i as int),
                    self.config.result_key@,
                    now,
                    self.config.enforce_expiration_on_read,
                ),
            decreases n - i,
        {
            let name = sessions[i].guest_token.name.clone();
            let projected: Option<String> = match &sessions[i].auth_result {
                None => None,
                Some(b) => project(
                    b.as_str(),
                    self.config.result_key.as_slice(),
                    now,
                    self.config.enforce_expiration_on_read,
                ),
            };
            let ghost pre_out = out@;
            out.push((name, projected));
            proof {
                let key = self.config.result_key@;
                let enforce = self.config.enforce_expiration_on_read;
                let sv = roomlist[i as int];
                assert(sessions@[i as int]@ == sv);
                assert(roomlist.len() == n);
                assert(pre_out.len() == i) by {
                    assert(pre_out.map_values(|p: (String, Option<String>)| pair_view(p)).len()
                        == pre_out.len());
                    assert(infos_of(roomlist.take(i as int), key, now, enforce).len()
                        == roomlist.take(i as int).len());
                }
                assert(out@.len() == pre_out.len() + 1);
                assert(pair_view(out@.last()) == entry_of(sv, key, now, enforce));
                assert(roomlist.take(i + 1).drop_last() =~= roomlist.take(i as int));
                assert(roomlist.take(i + 1).last() == sv);
                assert forall|j: int| 0 <= j < out@.len() implies pair_view(out@[j]) == entry_of(
                    roomlist.take(i + 1)[j],
                    key,
                    now,
                    enforce,
                ) by {
                    if j < i {
                        assert(out@[j] == pre_out[j]);
                        assert(pair_view(pre_out[j]) == pre_out.map_values(
                            |p: (String, Option<String>)| pair_view(p),
                        )[j]);
                        assert(infos_of(roomlist.take(i as int), key, now, enforce)[j]
                            == entry_of(roomlist.take(i as int)[j], key, now, enforce));
                        assert(roomlist.take(i as int)[j] == roomlist.take(i + 1)[j]);
                    } else {
                        assert(out@[j] == out@.last());
                        assert(roomlist.take(i + 1)[j] == sv);
                    }
                }
                assert(out@.map_values(|p: (String, Option<String>)| pair_view(p)) =~= infos_of(
                    roomlist.take(i + 1),
                    key,
                    now,
                    enforce,
                ));
            }
            i += 1;
        }
        proof {
            assert(roomlist.take(n as int) =~= roomlist);
        }
        Ok(out)
    }
}

// ---------------------------------------------------------------------------
// Laws of the host's view
// ---------------------------------------------------------------------------

/// Every session a room query yields belongs to that room.
pub proof fn lemma_room_sessions_scoped(s: Seq<SessionV>, room: Seq<char>)
    ensures
        forall|j: int|
            0 <= j < room_sessions(s, room).len() ==> (#[trigger] room_sessions(s, room)[j])
                .guest.room_id == room,
    decreases s.len(),
{
    if s.len() > 0 {
        lemma_room_sessions_scoped(s.drop_last(), room);
    }
}

/// Every session of the room is in the room query's answer.
pub proof fn lemma_room_sessions_complete(s: Seq<SessionV>, room: Seq<char>, i: int)
    requires
        0 <= i < s.len(),
        s[i].guest.room_id == room,
    ensures
        room_sessions(s, room).contains(s[i]),
    decreases s.len(),
{
    if i == s.len() - 1 {
        assert(s.last() == s[i]);
        assert(room_sessions(s, room).last() == s[i]);
    } else {
        assert(s.drop_last()[i] == s[i]);
        lemma_room_sessions_complete(s.drop_last(), room, i);
        let rs = room_sessions(s.drop_last(), room);
        let k = choose|k: int| 0 <= k < rs.len() && rs[k] == s[i];
        if s.last().guest.room_id == room {
            assert(room_sessions(s, room)[k] == s[i]);
        } else {
            assert(room_sessions(s, room)[k] == s[i]);
        }
    }
}

/// Every session a room query yields is one of the store's records.
proof fn lemma_room_sessions_members(s: Seq<SessionV>, room: Seq<char>)
    ensures
        forall|j: int|
            0 <= j < room_sessions(s, room).len() ==> s.contains(
                #[trigger] room_sessions(s, room)[j],
            ),
    decreases s.len(),
{
    if s.len() > 0 {
        lemma_room_sessions_members(s.drop_last(), room);
        assert forall|j: int| 0 <= j < room_sessions(s, room).len() implies s.contains(
            #[trigger] room_sessions(s, room)[j],
        ) by {
            let rs = room_sessions(s, room);
            let prev = room_sessions(s.drop_last(), room);
            if j < prev.len() {
                assert(rs[j] == prev[j]);
                let i = choose|i: int| 0 <= i < s.drop_last().len() && s.drop_last()[i] == prev[j];
                assert(s[i] == prev[j]);
            } else {
                assert(rs[j] == s.last());
                assert(s[s.len() - 1] == s.last());
            }
        }
    }
}

/// End to end: a session freshly created for a guest, whose authentic and
/// unexpired result the write path then records, stands in its own room's
/// view as the guest's name mapped to exactly the blob's claim set — and
/// contributes nothing to any other room's view. Under the enforcing read
/// posture this holds while the blob is still unexpired at the read time;
/// a stale blob rightly projects to absent under that posture, which is
/// the posture seam checked on its own.
pub proof fn lemma_end_to_end_view(
    s: Seq<SessionV>,
    fresh: SessionV,
    blob: Seq<char>,
    key: Seq<u8>,
    now_write: u64,
    now_read: u64,
    enforce: bool,
    other_room: Seq<char>,
)
    requires
        forall|i: int, j: int|
            0 <= i < j < s.len() ==> (#[trigger] s[i]).attr_id != (#[trigger] s[j]).attr_id,
        !has_attr(s, fresh.attr_id),
        fresh.auth_result is None,
        accept_spec(blob, key, now_write) is Ok,
        enforce ==> now_read < result_exp_of(payload_of(blob)),
        other_room != fresh.guest.room_id,
    ensures
        ({
            let created = s.push(fresh);
            let stored = created.update(
                idx_of(created, fresh.attr_id),
                SessionV {
                    auth_result: Some(blob),
                    ..created[idx_of(created, fresh.attr_id)]
                },
            );
            &&& infos_of(
                room_sessions(stored, fresh.guest.room_id),
                key,
                now_read,
                enforce,
            ).contains((fresh.guest.name, Some(result_claims_of(payload_of(blob)))))
            &&& forall|j: int|
                0 <= j < room_sessions(stored, other_room).len() ==> (
                #[trigger] room_sessions(stored, other_room)[j]).attr_id != fresh.attr_id
        }),
{
    lemma_create_then_find(s, fresh);
    let created = s.push(fresh);
    let w = idx_of(created, fresh.attr_id);
    let stored = created.update(w, SessionV { auth_result: Some(blob), ..created[w] });
    let rec = SessionV { auth_result: Some(blob), ..fresh };
    assert(created[w] == fresh);
    assert(stored[w] == rec);
    // The freshly stored record stands in its room's query...
    lemma_room_sessions_complete(stored, fresh.guest.room_id, w);
    // ...and its entry is the guest's name with the blob's claim set.
    lemma_accepted_projects(blob, key, now_write, now_read);
    assert(project_spec(blob, key, now_read, enforce) == Some(
        result_claims_of(payload_of(blob)),
    ));
    let roomlist = room_sessions(stored, fresh.guest.room_id);
    let k = choose|k: int| 0 <= k < roomlist.len() && roomlist[k] == rec;
    assert(infos_of(roomlist, key, now_read, enforce)[k] == entry_of(rec, key, now_read, enforce));
    assert(infos_of(roomlist, key, now_read, enforce).contains(
        (fresh.guest.name, Some(result_claims_of(payload_of(blob)))),
    ));
    // Another room's query never reaches the record: its members all carry
    // the other room, the record's identifier stands only at `w`, and the
    // record there carries the guest's own room.
    lemma_room_sessions_scoped(stored, other_room);
    lemma_room_sessions_members(stored, other_room);
    assert forall|j: int|
        0 <= j < room_sessions(stored, other_room).len() implies (
    #[trigger] room_sessions(stored, other_room)[j]).attr_id != fresh.attr_id by {
        let sv = room_sessions(stored, other_room)[j];
        assert(stored.contains(sv));
        let i = choose|i: int| 0 <= i < stored.len() && stored[i] == sv;
        if sv.attr_id == fresh.attr_id {
            if i < s.len() {
                assert(stored[i] == s[i]);
                assert(has_attr(s, fresh.attr_id));
            } else {
                assert(i == w);
                assert(sv.guest.room_id == fresh.guest.room_id);
            }
        }
    }
}

/// A host's view reaches exactly its own room: every entry it holds comes
/// from a session of that room — so no other room's result can leak into
/// it — and a session with no stored result stands in it as its guest's
/// name with nothing attached, not as an error.
pub proof fn lemma_session_info_scoped(
    s: Seq<SessionV>,
    room: Seq<char>,
    key: Seq<u8>,
    now: u64,
    enforce: bool,
)
    ensures
        infos_of(room_sessions(s, room), key, now, enforce).len() == room_sessions(s, room).len(),
        forall|j: int|
            0 <= j < room_sessions(s, room).len() ==> {
                let sv = #[trigger] room_sessions(s, room)[j];
                sv.guest.room_id == room && infos_of(room_sessions(s, room), key, now, enforce)[j]
                    == entry_of(sv, key, now, enforce) && (sv.auth_result is None ==> infos_of(
                    room_sessions(s, room),
                    key,
                    now,
                    enforce,
                )[j] == (sv.guest.name, None::<Seq<char>>))
            },
{
    lemma_room_sessions_scoped(s, room);
}

} // verus!
