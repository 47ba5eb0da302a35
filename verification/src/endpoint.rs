//! Machines: their identity, their saved profiles, and the supervisors that reconnect them.
use vstd::prelude::*;

verus! {

/// Which machine: this one, or the one of a saved SSH profile.
#[derive(Debug, PartialEq, Eq)]
pub enum ClientEndpointId {
    Local,
    Ssh(String),
}

pub enum EndpointIdView {
    Local,
    Ssh(Seq<char>),
}

impl View for ClientEndpointId {
    type V = EndpointIdView;

    open spec fn view(&self) -> EndpointIdView {
        match self {
            ClientEndpointId::Local => EndpointIdView::Local,
            ClientEndpointId::Ssh(id) => EndpointIdView::Ssh(id@),
        }
    }
}

impl Clone for ClientEndpointId {
    fn clone(&self) -> (copy: Self)
        ensures
            copy == *self,
    {
        match self {
            ClientEndpointId::Local => ClientEndpointId::Local,
            ClientEndpointId::Ssh(id) => ClientEndpointId::Ssh(id.clone()),
        }
    }
}

/// An optional endpoint by its view.
pub open spec fn id_view(id: Option<ClientEndpointId>) -> Option<EndpointIdView> {
    match id {
        Some(id) => Some(id@),
        None => None,
    }
}

impl ClientEndpointId {
    pub fn is_local(&self) -> (local: bool)
        ensures
            local == (self@ == EndpointIdView::Local),
    {
        match self {
            ClientEndpointId::Local => true,
            ClientEndpointId::Ssh(_) => false,
        }
    }

    /// Tells whether both are the same machine.
    pub fn same_as(&self, other: &ClientEndpointId) -> (same: bool)
        ensures
            same == (self@ == other@),
    {
        match (self, other) {
            (ClientEndpointId::Local, ClientEndpointId::Local) => true,
            (ClientEndpointId::Ssh(a), ClientEndpointId::Ssh(b)) => *a == *b,
            _ => false,
        }
    }
}

/// How the connection to a machine stands.
#[derive(Clone, Copy, Debug, PartialEq, Eq, Structural)]
pub enum ClientEndpointStatus {
    Connected,
    Reconnecting,
    /// The user has to do something before the machine can be reached.
    Attention,
}

/// A machine that the user saved.
#[derive(Debug, PartialEq, Eq)]
pub struct SavedSshEndpoint {
    pub id: String,
    pub label: String,
    pub target: String,
    pub session: String,
    pub enabled: bool,
}

impl Clone for SavedSshEndpoint {
    fn clone(&self) -> (copy: Self)
        ensures
            copy == *self,
    {
        SavedSshEndpoint {
            id: self.id.clone(),
            label: self.label.clone(),
            target: self.target.clone(),
            session: self.session.clone(),
            enabled: self.enabled,
        }
    }
}

impl SavedSshEndpoint {
    pub open spec fn endpoint(&self) -> EndpointIdView {
        EndpointIdView::Ssh(self.id@)
    }

    pub fn endpoint_id(&self) -> (id: ClientEndpointId)
        ensures
            id@ == self.endpoint(),
    {
        ClientEndpointId::Ssh(self.id.clone())
    }
}

/// The reconnection of one machine: when it is tried next, if it is to be tried by itself.
#[derive(Debug, PartialEq, Eq)]
pub struct Supervised {
    pub endpoint_id: ClientEndpointId,
    pub retry_at: Option<u64>,
}

/// What keeps the enabled machines connected. Times are in nanoseconds.
#[derive(Debug, PartialEq, Eq)]
pub struct EndpointSupervisors {
    pub supervised: Vec<Supervised>,
}

/// The supervisor at position `i` is the one of `id`.
pub open spec fn supervises(supervised: Seq<Supervised>, i: int, id: EndpointIdView) -> bool {
    0 <= i < supervised.len() && supervised[i].endpoint_id@ == id
}

/// The profile at position `i` is an enabled one, of the machine `id`.
pub open spec fn enables(profiles: Seq<SavedSshEndpoint>, i: int, id: EndpointIdView) -> bool {
    0 <= i < profiles.len() && profiles[i].enabled && profiles[i].endpoint() == id
}

/// One of the profiles is an enabled one, of the machine `id`.
pub open spec fn some_enables(profiles: Seq<SavedSshEndpoint>, id: EndpointIdView) -> bool {
    exists|i: int| enables(profiles, i, id)
}

/// One of the supervisors is the one of `id`.
pub open spec fn some_supervises(supervised: Seq<Supervised>, id: EndpointIdView) -> bool {
    exists|i: int| supervises(supervised, i, id)
}

impl View for EndpointSupervisors {
    type V = Map<EndpointIdView, Option<u64>>;

    /// The machines under supervision, each with the time of its next try.
    open spec fn view(&self) -> Map<EndpointIdView, Option<u64>> {
        let all = self.supervised@;
        Map::new(
            |id: EndpointIdView| some_supervises(all, id),
            |id: EndpointIdView| all[choose|i: int| supervises(all, i, id)].retry_at,
        )
    }
}

impl EndpointSupervisors {
    /// No machine has two supervisors.
    pub open spec fn well_formed(&self) -> bool {
        forall|i: int, j: int, id: EndpointIdView|
            #[trigger] supervises(self.supervised@, i, id) && #[trigger] supervises(
                self.supervised@,
                j,
                id,
            ) ==> i == j
    }

    proof fn lemma_entry(&self, i: int, id: EndpointIdView)
        requires
            self.well_formed(),
            supervises(self.supervised@, i, id),
        ensures
            self@.contains_key(id),
            self@[id] == self.supervised@[i].retry_at,
    {
    }

    /// One supervisor for each enabled profile, all to be tried at `now`.
    pub fn new(profiles: &[SavedSshEndpoint], now: u64) -> (supervisors: EndpointSupervisors)
        ensures
            supervisors.well_formed(),
            supervisors@ == Map::new(
                |id: EndpointIdView| some_enables(profiles@, id),
                |id: EndpointIdView| Some(now),
            ),
    {
        let mut supervisors = EndpointSupervisors { supervised: Vec::new() };
        let mut n: usize = 0;
        while n < profiles.len()
            invariant
                n <= profiles.len(),
                supervisors.well_formed(),
                forall|i: int|
                    0 <= i < supervisors.supervised.len() ==> (
                    #[trigger] supervisors.supervised@[i]).retry_at == Some(now),
                forall|id: EndpointIdView| #[trigger]
                    some_supervises(supervisors.supervised@, id) == some_enables(
                        profiles@.take(n as int),
                        id,
                    ),
            decreases profiles.len() - n,
        {
            let profile = &profiles[n];
            let ghost before = supervisors.supervised@;
            let ghost seen = profiles@.take(n as int);
            let ghost now_seen = profiles@.take(n + 1);
            let endpoint_id = profile.endpoint_id();
            let ghost this = endpoint_id@;
            let known = supervisors.position(&endpoint_id);
            if profile.enabled && known.is_none() {
                supervisors.supervised.push(Supervised { endpoint_id, retry_at: Some(now) });
            }
            proof {
                let after = supervisors.supervised@;
                assert forall|i: int, id: EndpointIdView| #[trigger]
                    supervises(after, i, id) implies supervises(before, i, id) || (i
                    == before.len() && id == this && profile.enabled && known is None) by {}
                assert forall|i: int, id: EndpointIdView| #[trigger]
                    enables(now_seen, i, id) implies enables(seen, i, id) || (i == n && id == this
                    && profile.enabled) by {}
                assert forall|id: EndpointIdView| #[trigger]
                    some_supervises(after, id) == some_enables(now_seen, id) by {
                    assert(some_supervises(before, id) == some_enables(seen, id));
                    if some_enables(seen, id) {
                        let i = choose|i: int| enables(seen, i, id);
                        assert(enables(now_seen, i, id));
                    }
                    if some_supervises(before, id) {
                        let i = choose|i: int| supervises(before, i, id);
                        assert(supervises(after, i, id));
                    }
                    if id == this && profile.enabled {
                        assert(enables(now_seen, n as int, id));
                        if known is Some {
                            assert(supervises(before, known->0 as int, id));
                        } else {
                            assert(supervises(after, before.len() as int, id));
                        }
                    }
                }
            }
            n += 1;
        }
        proof {
            let all = supervisors.supervised@;
            assert(profiles@.take(n as int) =~= profiles@);
            assert forall|id: EndpointIdView| #[trigger] supervisors@.contains_key(id) implies
                supervisors@[id] == Some(now) by {
                let i = choose|i: int| supervises(all, i, id);
                supervisors.lemma_entry(i, id);
            }
            assert(supervisors@ =~= Map::new(
                |id: EndpointIdView| some_enables(profiles@, id),
                |id: EndpointIdView| Some(now),
            ));
        }
        supervisors
    }

    fn position(&self, id: &ClientEndpointId) -> (found: Option<usize>)
        ensures
            match found {
                Some(i) => supervises(self.supervised@, i as int, id@),
                None => forall|i: int| !supervises(self.supervised@, i, id@),
            },
    {
        let mut i: usize = 0;
        while i < self.supervised.len()
            invariant
                i <= self.supervised.len(),
                forall|j: int| 0 <= j < i ==> !supervises(self.supervised@, j, id@),
            decreases self.supervised.len() - i,
        {
            if self.supervised[i].endpoint_id.same_as(id) {
                return Some(i);
            }
            i += 1;
        }
        None
    }

    /// Sets the time of the next try of `id`, if it is under supervision.
    fn schedule(&mut self, id: &ClientEndpointId, retry_at: Option<u64>) -> (supervised: bool)
        requires
            old(self).well_formed(),
        ensures
            final(self).well_formed(),
            supervised == old(self)@.contains_key(id@),
            final(self)@ == if supervised {
                old(self)@.insert(id@, retry_at)
            } else {
                old(self)@
            },
    {
        let ghost before = self.supervised@;
        match self.position(id) {
            None => false,
            Some(i) => {
                let endpoint_id = self.supervised[i].endpoint_id.clone();
                self.supervised.set(i, Supervised { endpoint_id, retry_at });
                proof {
                    let after = self.supervised@;
                    assert forall|j: int, other: EndpointIdView| #[trigger]
                        supervises(after, j, other) <==> supervises(before, j, other) by {}
                    old(self).lemma_entry(i as int, id@);
                    self.lemma_entry(i as int, id@);
                    assert forall|other: EndpointIdView| other != id@ && #[trigger]
                        old(self)@.contains_key(other) implies self@.contains_key(other)
                        && self@[other] == old(self)@[other] by {
                        let j = choose|j: int| supervises(before, j, other);
                        old(self).lemma_entry(j, other);
                        assert(supervises(after, j, other));
                        self.lemma_entry(j, other);
                    }
                    assert forall|other: EndpointIdView| #[trigger] self@.contains_key(other)
                        implies old(self)@.contains_key(other) by {
                        let j = choose|j: int| supervises(after, j, other);
                        assert(supervises(before, j, other));
                    }
                    assert(self@ =~= old(self)@.insert(id@, retry_at));
                }
                true
            },
        }
    }

    /// Stops trying `id` by itself. Tells whether `id` is under supervision.
    pub fn pause_authentication(&mut self, id: &ClientEndpointId) -> (supervised: bool)
        requires
            old(self).well_formed(),
        ensures
            final(self).well_formed(),
            supervised == old(self)@.contains_key(id@),
            final(self)@ == paused(old(self)@, id@),
    {
        self.schedule(id, None)
    }

    /// Tries `id` again at `now`.
    pub fn retry_after_authentication(&mut self, id: &ClientEndpointId, now: u64)
        requires
            old(self).well_formed(),
        ensures
            final(self).well_formed(),
            final(self)@ == retried(old(self)@, id@, now),
    {
        let _ = self.schedule(id, Some(now));
    }

    /// When `id` is tried next by itself, if it is.
    pub fn authentication_retry(&self, id: &ClientEndpointId) -> (retry_at: Option<u64>)
        requires
            self.well_formed(),
        ensures
            retry_at == if self@.contains_key(id@) {
                self@[id@]
            } else {
                None
            },
    {
        match self.position(id) {
            Some(i) => {
                proof {
                    self.lemma_entry(i as int, id@);
                }
                self.supervised[i].retry_at
            },
            None => None,
        }
    }
}

/// The supervisors once `id` is no longer tried by itself.
pub open spec fn paused(
    supervisors: Map<EndpointIdView, Option<u64>>,
    id: EndpointIdView,
) -> Map<EndpointIdView, Option<u64>> {
    if supervisors.contains_key(id) {
        supervisors.insert(id, None)
    } else {
        supervisors
    }
}

/// The supervisors once `id` is to be tried at `now`.
pub open spec fn retried(
    supervisors: Map<EndpointIdView, Option<u64>>,
    id: EndpointIdView,
    now: u64,
) -> Map<EndpointIdView, Option<u64>> {
    if supervisors.contains_key(id) {
        supervisors.insert(id, Some(now))
    } else {
        supervisors
    }
}

} // verus!
