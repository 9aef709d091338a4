use vstd::prelude::*;
use crate::idmap::{latest_remote_for, EntityIdMap};
use crate::ids::{DomainId, IdAllocator, TabId, WindowId};
use crate::mux::{window_ids_of, LocalTab, Mux, TermSize};

verus! {

/// A domain reached over a local socket.
pub struct UnixDomain {
    pub name: String,
    pub connect_automatically: bool,
    pub socket_path: Option<String>,
}

/// A domain reached over TLS.
pub struct TlsDomainClient {
    pub name: String,
    pub connect_automatically: bool,
    pub remote_address: String,
}

/// A domain reached through an SSH tunnel.
pub struct SshDomain {
    pub name: String,
    pub connect_automatically: bool,
    pub remote_address: String,
    pub username: String,
}

/// How a client domain connects to its server.
pub enum ClientDomainConfig {
    Unix(UnixDomain),
    Tls(TlsDomainClient),
    Ssh(SshDomain),
}

impl ClientDomainConfig {
    pub open spec fn spec_name(&self) -> Seq<char> {
        match self {
            ClientDomainConfig::Unix(unix) => unix.name@,
            ClientDomainConfig::Tls(tls) => tls.name@,
            ClientDomainConfig::Ssh(ssh) => ssh.name@,
        }
    }

    pub open spec fn spec_connect_automatically(&self) -> bool {
        match self {
            ClientDomainConfig::Unix(unix) => unix.connect_automatically,
            ClientDomainConfig::Tls(tls) => tls.connect_automatically,
            ClientDomainConfig::Ssh(ssh) => ssh.connect_automatically,
        }
    }

    /// The domain's name, whatever its transport.
    pub fn name(&self) -> (r: &str)
        ensures
            r@ == self.spec_name(),
    {
        match self {
            ClientDomainConfig::Unix(unix) => unix.name.as_str(),
            ClientDomainConfig::Tls(tls) => tls.name.as_str(),
            ClientDomainConfig::Ssh(ssh) => ssh.name.as_str(),
        }
    }

    /// Whether the domain is attached at startup.
    pub fn connect_automatically(&self) -> (r: bool)
        ensures
            r == self.spec_connect_automatically(),
    {
        match self {
            ClientDomainConfig::Unix(unix) => unix.connect_automatically,
            ClientDomainConfig::Tls(tls) => tls.connect_automatically,
            ClientDomainConfig::Ssh(ssh) => ssh.connect_automatically,
        }
    }
}

/// Whether a domain has a live connection.
#[derive(Clone, Copy, Debug, PartialEq, Eq, Structural)]
pub enum DomainState {
    Detached,
    Attached,
}

/// What the controller's operations can fail with.
#[derive(Clone, Copy, Debug, PartialEq, Eq, Structural)]
pub enum DomainError {
    /// The operation needs an attached domain.
    NotAttached,
    /// The transport could not be established or was lost.
    ConnectionFailed,
    /// A malformed or unexpected frame arrived.
    ProtocolViolation,
    /// The server declined to spawn.
    SpawnRejected,
    /// A lookup found no entry where the caller needed one.
    UnknownMapping,
}

/// A spawn request for the server.
pub struct Spawn {
    pub domain_id: DomainId,
    /// The remote window to spawn into; `None` asks for a new remote window.
    pub window_id: Option<WindowId>,
    pub size: TermSize,
    /// The command line, or `None` for the server's default program.
    pub command: Option<Vec<String>>,
}

/// The server's answer to a spawn request.
#[derive(Clone, Copy, Debug, PartialEq, Eq, Structural)]
pub struct SpawnResponse {
    pub tab_id: TabId,
    pub window_id: WindowId,
}

/// One tab that the server reports when a domain attaches.
pub struct RemoteTabEntry {
    pub window_id: WindowId,
    pub tab_id: TabId,
    pub title: String,
    pub size: TermSize,
}

/// The live state of an attached domain: its connection and the
/// remote-to-local id maps of that connection.
pub struct ClientInner<C> {
    pub client: C,
    pub local_domain_id: DomainId,
    pub remote_domain_id: DomainId,
    pub remote_to_local_window: EntityIdMap,
    pub remote_to_local_tab: EntityIdMap,
}

impl<C> ClientInner<C> {
    pub open spec fn window_map(&self) -> EntityIdMap {
        self.remote_to_local_window
    }

    pub open spec fn tab_map(&self) -> EntityIdMap {
        self.remote_to_local_tab
    }

    pub open spec fn wf(&self) -> bool {
        self.window_map().wf() && self.tab_map().wf()
    }

    /// A connection state as `new` makes it: empty maps, remote domain 0.
    pub open spec fn is_fresh(&self, local_domain_id: DomainId, client: C) -> bool {
        &&& self.wf()
        &&& self.client == client
        &&& self.local_domain_id == local_domain_id
        &&& self.remote_domain_id == 0
        &&& self.window_map()@ == Map::<u64, u64>::empty()
        &&& self.window_map().entries() == Seq::<(u64, u64)>::empty()
        &&& self.tab_map()@ == Map::<u64, u64>::empty()
    }

    /// A fresh connection state with empty maps. The server's domain is
    /// taken to be its first, default domain, whose id is 0.
    pub fn new(local_domain_id: DomainId, client: C) -> (r: Self)
        ensures
            r.is_fresh(local_domain_id, client),
    {
        let remote_domain_id: DomainId = 0;
        ClientInner {
            client,
            local_domain_id,
            remote_domain_id,
            remote_to_local_window: EntityIdMap::new(),
            remote_to_local_tab: EntityIdMap::new(),
        }
    }

    fn remote_to_local_window(&self, remote_window_id: WindowId) -> (r: Option<WindowId>)
        requires
            self.wf(),
        ensures
            r == (if self.window_map()@.contains_key(remote_window_id) {
                Some(self.window_map()@[remote_window_id])
            } else {
                None
            }),
    {
        self.remote_to_local_window.lookup_local(remote_window_id)
    }

    fn record_remote_to_local_window_mapping(
        &mut self,
        remote_window_id: WindowId,
        local_window_id: WindowId,
    )
        requires
            old(self).wf(),
        ensures
            final(self).wf(),
            final(self).window_map()@ == old(self).window_map()@.insert(
                remote_window_id,
                local_window_id,
            ),
            final(self).window_map().entries().len() > 0,
            final(self).window_map().entries().last() == (remote_window_id, local_window_id),
            final(self).tab_map() == old(self).tab_map(),
            final(self).client == old(self).client,
            final(self).local_domain_id == old(self).local_domain_id,
            final(self).remote_domain_id == old(self).remote_domain_id,
    {
        self.remote_to_local_window.record(remote_window_id, local_window_id);
    }

    fn local_to_remote_window(&self, local_window_id: WindowId) -> (r: Option<WindowId>)
        requires
            self.wf(),
        ensures
            r == latest_remote_for(self.window_map().entries(), local_window_id),
            r is Some ==> self.window_map()@.contains_key(r->0) && self.window_map()@[r->0]
                == local_window_id,
            r is None ==> forall|k: WindowId| #[trigger] self.window_map()@.contains_key(k)
                ==> self.window_map()@[k] != local_window_id,
    {
        self.remote_to_local_window.lookup_remote(local_window_id)
    }
}

/// Whether `t` stands for the remote tab `remote` of the domain `domain`.
pub open spec fn tab_matches(t: LocalTab, domain: DomainId, remote: TabId) -> bool {
    t.domain_id == domain && t.remote_tab_id == Some(remote)
}

/// The set of remote window ids that `entries` mention.
pub open spec fn remote_windows(entries: Seq<RemoteTabEntry>) -> Set<WindowId>
    decreases entries.len(),
{
    if entries.len() == 0 {
        Set::empty()
    } else {
        remote_windows(entries.drop_last()).insert(entries.last().window_id)
    }
}

proof fn lemma_remote_windows_finite(entries: Seq<RemoteTabEntry>)
    ensures
        remote_windows(entries).finite(),
    decreases entries.len(),
{
    if entries.len() > 0 {
        lemma_remote_windows_finite(entries.drop_last());
    }
}

/// The local tabs that attaching creates for `entries`, in order, with ids
/// issued from `first_tab_id` on.
pub open spec fn attached_tabs(entries: Seq<RemoteTabEntry>, domain_id: DomainId, first_tab_id: int) -> Seq<LocalTab> {
    Seq::new(
        entries.len(),
        |i: int|
            LocalTab {
                tab_id: (first_tab_id + i) as u64,
                domain_id,
                remote_tab_id: Some(entries[i].tab_id),
                size: entries[i].size,
            },
    )
}

/// A domain whose windows and tabs live in a server process.
pub struct ClientDomain<C> {
    config: ClientDomainConfig,
    inner: Option<ClientInner<C>>,
    local_domain_id: DomainId,
}

impl<C> ClientDomain<C> {
    pub closed spec fn spec_config(&self) -> ClientDomainConfig {
        self.config
    }

    pub closed spec fn spec_inner(&self) -> Option<ClientInner<C>> {
        self.inner
    }

    pub closed spec fn spec_domain_id(&self) -> DomainId {
        self.local_domain_id
    }

    pub open spec fn wf(&self) -> bool {
        self.spec_inner() is Some ==> {
            &&& self.spec_inner()->0.wf()
            &&& self.spec_inner()->0.local_domain_id == self.spec_domain_id()
        }
    }

    /// Every local window that the window map names exists in `mux`.
    pub open spec fn windows_present(&self, mux: Mux) -> bool {
        self.spec_inner() is Some ==> forall|k: WindowId| #[trigger]
            self.spec_inner()->0.window_map()@.contains_key(k) ==> mux.has_window(
                self.spec_inner()->0.window_map()@[k],
            )
    }

    pub open spec fn spec_state(&self) -> DomainState {
        if self.spec_inner() is Some {
            DomainState::Attached
        } else {
            DomainState::Detached
        }
    }

    /// A detached domain with a fresh local domain id.
    pub fn new(config: ClientDomainConfig, domain_ids: &mut IdAllocator) -> (r: Self)
        requires
            old(domain_ids).next_id() < u64::MAX,
        ensures
            r.wf(),
            r.spec_config() == config,
            r.spec_inner() is None,
            r.spec_domain_id() == old(domain_ids).next_id(),
            final(domain_ids).next_id() == old(domain_ids).next_id() + 1,
    {
        let local_domain_id = domain_ids.allocate();
        ClientDomain { config, inner: None, local_domain_id }
    }

    fn inner(&self) -> (r: Option<&ClientInner<C>>)
        ensures
            (r is Some) == (self.spec_inner() is Some),
            r is Some ==> *(r->0) == self.spec_inner()->0,
    {
        self.inner.as_ref()
    }

    /// The connection of an attached domain.
    pub fn client(&self) -> (r: Option<&C>)
        ensures
            (r is Some) == (self.spec_inner() is Some),
            r is Some ==> *(r->0) == self.spec_inner()->0.client,
    {
        match self.inner() {
            None => None,
            Some(inner) => Some(&inner.client),
        }
    }

    pub fn domain_id(&self) -> (r: DomainId)
        ensures
            r == self.spec_domain_id(),
    {
        self.local_domain_id
    }

    pub fn domain_name(&self) -> (r: &str)
        ensures
            r@ == self.spec_config().spec_name(),
    {
        self.config.name()
    }

    pub fn state(&self) -> (r: DomainState)
        ensures
            r == self.spec_state(),
    {
        if self.inner().is_some() {
            DomainState::Attached
        } else {
            DomainState::Detached
        }
    }

    /// Drops the connection and its id maps, and tells `mux` that this
    /// domain's entities are orphaned.
    pub fn perform_detach(&mut self, mux: &mut Mux)
        requires
            old(mux).wf(),
        ensures
            final(self).wf(),
            final(self).spec_inner() is None,
            final(self).spec_config() == old(self).spec_config(),
            final(self).spec_domain_id() == old(self).spec_domain_id(),
            final(mux).wf(),
            final(mux).detached_domains() == old(mux).detached_domains().push(old(self).spec_domain_id()),
            final(mux).tabs() == old(mux).tabs(),
            final(mux).windows() == old(mux).windows(),
            final(mux).next_tab_id() == old(mux).next_tab_id(),
            final(mux).next_window_id() == old(mux).next_window_id(),
    {
        self.inner = None;
        mux.domain_was_detached(self.local_domain_id);
    }

    /// Detaches the domain, as `perform_detach`; this cannot fail.
    pub fn detach(&mut self, mux: &mut Mux) -> (r: Result<(), DomainError>)
        requires
            old(mux).wf(),
        ensures
            r is Ok,
            final(self).wf(),
            final(self).spec_inner() is None,
            final(self).spec_config() == old(self).spec_config(),
            final(self).spec_domain_id() == old(self).spec_domain_id(),
            final(mux).wf(),
            final(mux).detached_domains() == old(mux).detached_domains().push(old(self).spec_domain_id()),
            final(mux).tabs() == old(mux).tabs(),
            final(mux).windows() == old(mux).windows(),
            final(mux).next_tab_id() == old(mux).next_tab_id(),
            final(mux).next_window_id() == old(mux).next_window_id(),
    {
        self.perform_detach(mux);
        Ok(())
    }

    /// Starts attaching over the connection `client`: a fresh connection
    /// state with empty id maps replaces any earlier one.
    pub fn begin_attach(&mut self, client: C)
        ensures
            final(self).wf(),
            final(self).spec_inner() is Some,
            final(self).spec_inner()->0.is_fresh(old(self).spec_domain_id(), client),
            final(self).spec_config() == old(self).spec_config(),
            final(self).spec_domain_id() == old(self).spec_domain_id(),
    {
        self.inner = Some(ClientInner::new(self.local_domain_id, client));
    }

    /// The local tab that stands for the remote tab `remote_tab_id`.
    ///
    /// The tab map is consulted first. On a miss the tabs of `mux` are
    /// scanned for the first one of this domain bound to that remote tab;
    /// a hit is recorded in the tab map.
    pub fn remote_to_local_tab_id(&mut self, mux: &Mux, remote_tab_id: TabId) -> (r: Option<TabId>)
        requires
            old(self).wf(),
        ensures
            final(self).wf(),
            final(self).spec_config() == old(self).spec_config(),
            final(self).spec_domain_id() == old(self).spec_domain_id(),
            (final(self).spec_inner() is Some) == (old(self).spec_inner() is Some),
            old(self).spec_inner() is None ==> r is None,
            old(self).spec_inner() is Some ==> {
                let old_inner = old(self).spec_inner()->0;
                let new_inner = final(self).spec_inner()->0;
                let tabs = mux.tabs();
                let d = old(self).spec_domain_id();
                &&& new_inner.client == old_inner.client
                &&& new_inner.remote_domain_id == old_inner.remote_domain_id
                &&& new_inner.window_map() == old_inner.window_map()
                &&& if old_inner.tab_map()@.contains_key(remote_tab_id) {
                    &&& r == Some(old_inner.tab_map()@[remote_tab_id])
                    &&& new_inner.tab_map() == old_inner.tab_map()
                } else if r is Some {
                    &&& exists|i: int|
                        0 <= i < tabs.len() && tab_matches(#[trigger] tabs[i], d, remote_tab_id)
                            && tabs[i].tab_id == r->0 && forall|j: int|
                            0 <= j < i ==> !tab_matches(#[trigger] tabs[j], d, remote_tab_id)
                    &&& new_inner.tab_map()@ == old_inner.tab_map()@.insert(remote_tab_id, r->0)
                } else {
                    &&& forall|i: int|
                        0 <= i < tabs.len() ==> !tab_matches(#[trigger] tabs[i], d, remote_tab_id)
                    &&& new_inner.tab_map() == old_inner.tab_map()
                }
            },
    {
        if self.inner.is_none() {
            return None;
        }
        let taken = self.inner.take();
        match taken {
            None => None,
            Some(mut inner) => {
                let ghost inner0 = inner;
                if let Some(id) = inner.remote_to_local_tab.lookup_local(remote_tab_id) {
                    self.inner = Some(inner);
                    return Some(id);
                }
                let n = mux.tab_count();
                let mut i: usize = 0;
                while i < n
                    invariant
                        n == mux.tabs().len(),
                        0 <= i <= n,
                        inner == inner0,
                        inner.wf(),
                        !inner.tab_map()@.contains_key(remote_tab_id),
                        inner.local_domain_id == self.local_domain_id,
                        old(self).spec_inner() is Some,
                        inner0 == old(self).spec_inner()->0,
                        self.config == old(self).config,
                        self.local_domain_id == old(self).local_domain_id,
                        self.inner is None,
                        forall|j: int|
                            0 <= j < i ==> !tab_matches(
                                #[trigger] mux.tabs()[j],
                                self.local_domain_id,
                                remote_tab_id,
                            ),
                    decreases n - i,
                {
                    let tab = mux.tab_at(i);
                    if tab.domain_id == self.local_domain_id && tab.remote_tab_id == Some(
                        remote_tab_id,
                    ) {
                        let local_tab_id = tab.tab_id;
                        inner.remote_to_local_tab.record(remote_tab_id, local_tab_id);
                        self.inner = Some(inner);
                        assert(tab_matches(mux.tabs()[i as int], self.local_domain_id, remote_tab_id));
                        return Some(local_tab_id);
                    }
                    i = i + 1;
                }
                self.inner = Some(inner);
                None
            },
        }
    }
}

impl<C> ClientDomain<C> {
    /// The request that spawns a tab of size `size` running `command` into
    /// the local window `window`: it names the remote window most recently
    /// mapped to `window`, or none, which asks for a new remote window.
    pub fn spawn_request(&self, size: TermSize, command: Option<Vec<String>>, window: WindowId) -> (r: Result<Spawn, DomainError>)
        requires
            self.wf(),
        ensures
            self.spec_inner() is None ==> r == Err::<Spawn, DomainError>(DomainError::NotAttached),
            self.spec_inner() is Some ==> {
                let inner = self.spec_inner()->0;
                &&& r is Ok
                &&& r->Ok_0.domain_id == inner.remote_domain_id
                &&& r->Ok_0.window_id == latest_remote_for(inner.window_map().entries(), window)
                &&& r->Ok_0.window_id is Some ==> inner.window_map()@.contains_key(r->Ok_0.window_id->0)
                    && inner.window_map()@[r->Ok_0.window_id->0] == window
                &&& r->Ok_0.window_id is None ==> forall|k: WindowId| #[trigger] inner.window_map()@.contains_key(k)
                    ==> inner.window_map()@[k] != window
                &&& r->Ok_0.size == size
                &&& r->Ok_0.command == command
            },
    {
        match self.inner() {
            None => Err(DomainError::NotAttached),
            Some(inner) => Ok(
                Spawn {
                    domain_id: inner.remote_domain_id,
                    window_id: inner.local_to_remote_window(window),
                    size,
                    command,
                },
            ),
        }
    }

    /// The local window recorded for the remote window `remote_window_id`.
    pub fn remote_to_local_window_id(&self, remote_window_id: WindowId) -> (r: Option<WindowId>)
        requires
            self.wf(),
        ensures
            self.spec_inner() is None ==> r is None,
            self.spec_inner() is Some ==> r == (if self.spec_inner()->0.window_map()@.contains_key(remote_window_id) {
                Some(self.spec_inner()->0.window_map()@[remote_window_id])
            } else {
                None
            }),
    {
        match self.inner() {
            None => None,
            Some(inner) => inner.remote_to_local_window(remote_window_id),
        }
    }

    /// Completes a spawn into the local window `window` once the server
    /// answered `response`: records the remote window against `window` and
    /// adds a local tab bound to the remote tab, under that window.
    pub fn complete_spawn(&mut self, mux: &mut Mux, size: TermSize, window: WindowId, response: SpawnResponse) -> (r: Result<TabId, DomainError>)
        requires
            old(self).wf(),
            old(mux).wf(),
            old(self).windows_present(*old(mux)),
            old(mux).next_tab_id() < u64::MAX,
        ensures
            final(self).wf(),
            final(mux).wf(),
            final(self).windows_present(*final(mux)),
            final(self).spec_config() == old(self).spec_config(),
            final(self).spec_domain_id() == old(self).spec_domain_id(),
            old(self).spec_inner() is None ==> {
                &&& r == Err::<TabId, DomainError>(DomainError::NotAttached)
                &&& *final(mux) == *old(mux)
                &&& final(self).spec_inner() is None
            },
            old(self).spec_inner() is Some && !old(mux).has_window(window) ==> {
                &&& r == Err::<TabId, DomainError>(DomainError::UnknownMapping)
                &&& *final(mux) == *old(mux)
                &&& final(self).spec_inner() == old(self).spec_inner()
            },
            old(self).spec_inner() is Some && old(mux).has_window(window) ==> {
                let old_inner = old(self).spec_inner()->0;
                let new_inner = final(self).spec_inner()->0;
                &&& r == Ok::<TabId, DomainError>(old(mux).next_tab_id())
                &&& final(self).spec_inner() is Some
                &&& new_inner.client == old_inner.client
                &&& new_inner.remote_domain_id == old_inner.remote_domain_id
                &&& new_inner.tab_map() == old_inner.tab_map()
                &&& new_inner.window_map()@ == old_inner.window_map()@.insert(response.window_id, window)
                &&& new_inner.window_map().entries().len() > 0
                &&& new_inner.window_map().entries().last() == (response.window_id, window)
                &&& final(mux).tabs() == old(mux).tabs().push(
                    LocalTab {
                        tab_id: old(mux).next_tab_id(),
                        domain_id: old(self).spec_domain_id(),
                        remote_tab_id: Some(response.tab_id),
                        size,
                    },
                )
                &&& final(mux).windows().len() == old(mux).windows().len()
                &&& window_ids_of(final(mux).windows()) == window_ids_of(old(mux).windows())
                &&& final(mux).window_tabs(window) == old(mux).window_tabs(window).push(old(mux).next_tab_id())
            },
    {
        if self.inner.is_none() {
            return Err(DomainError::NotAttached);
        }
        if !mux.contains_window(window) {
            return Err(DomainError::UnknownMapping);
        }
        let taken = self.inner.take();
        match taken {
            None => Err(DomainError::NotAttached),
            Some(mut inner) => {
                inner.record_remote_to_local_window_mapping(response.window_id, window);
                let tab = mux.add_tab(self.local_domain_id, Some(response.tab_id), size);
                assert(mux.has_window(window)) by {
                    let j = choose|j: int| 0 <= j < old(mux).windows().len() && #[trigger] old(mux).windows()[j].window_id == window;
                    assert(mux.windows()[j].window_id == window);
                }
                let ghost mid = *mux;
                assert(forall|w: WindowId| #[trigger] old(mux).has_window(w) ==> mid.has_window(w));
                mux.add_tab_to_window(tab, window);
                self.inner = Some(inner);
                Ok(tab)
            },
        }
    }

    /// Reconciles the tabs that the server reported on attach: each gets a
    /// local tab; a tab whose remote window already has a local window joins
    /// it, any other gets a new local window, recorded in the window map.
    /// Returns the new local windows, in order, for the presentation layer
    /// to surface. On a fresh attach exactly one local window is created
    /// per distinct remote window.
    pub fn reconcile(&mut self, mux: &mut Mux, tabs: &Vec<RemoteTabEntry>) -> (r: Result<Vec<WindowId>, DomainError>)
        requires
            old(self).wf(),
            old(mux).wf(),
            old(self).windows_present(*old(mux)),
            old(mux).next_tab_id() + tabs@.len() <= u64::MAX,
            old(mux).next_window_id() + tabs@.len() <= u64::MAX,
        ensures
            final(self).wf(),
            final(mux).wf(),
            final(self).windows_present(*final(mux)),
            final(self).spec_config() == old(self).spec_config(),
            final(self).spec_domain_id() == old(self).spec_domain_id(),
            old(self).spec_inner() is None ==> {
                &&& r == Err::<Vec<WindowId>, DomainError>(DomainError::NotAttached)
                &&& *final(mux) == *old(mux)
                &&& final(self).spec_inner() is None
            },
            old(self).spec_inner() is Some ==> {
                let old_inner = old(self).spec_inner()->0;
                let new_inner = final(self).spec_inner()->0;
                let created = r->Ok_0@;
                &&& r is Ok
                &&& final(self).spec_inner() is Some
                &&& new_inner.client == old_inner.client
                &&& new_inner.remote_domain_id == old_inner.remote_domain_id
                &&& new_inner.tab_map() == old_inner.tab_map()
                &&& final(mux).tabs() == old(mux).tabs() + attached_tabs(
                    tabs@,
                    old(self).spec_domain_id(),
                    old(mux).next_tab_id() as int,
                )
                &&& final(mux).windows().len() == old(mux).windows().len() + created.len()
                &&& new_inner.window_map()@.dom() == old_inner.window_map()@.dom().union(remote_windows(tabs@))
                &&& old_inner.window_map()@.dom().is_empty() ==> created.len() == remote_windows(tabs@).len()
                &&& forall|j: int| 0 <= j < tabs@.len() ==> {
                    let w = new_inner.window_map()@[#[trigger] tabs@[j].window_id];
                    &&& new_inner.window_map()@.contains_key(tabs@[j].window_id)
                    &&& final(mux).has_window(w)
                    &&& final(mux).window_tabs(w).contains((old(mux).next_tab_id() + j) as u64)
                }
                &&& created == Seq::new(created.len(), |k: int| (old(mux).next_window_id() + k) as u64)
                &&& window_ids_of(final(mux).windows()) == window_ids_of(old(mux).windows()) + created
                &&& forall|k: WindowId| #[trigger] old_inner.window_map()@.contains_key(k)
                    ==> new_inner.window_map()@.contains_key(k) && new_inner.window_map()@[k]
                    == old_inner.window_map()@[k]
                &&& forall|j: int| 0 <= j < tabs@.len() && !old_inner.window_map()@.contains_key(
                    #[trigger] tabs@[j].window_id,
                ) ==> created.contains(new_inner.window_map()@[tabs@[j].window_id])
                &&& forall|j: int, k: int|
                    0 <= j < tabs@.len() && 0 <= k < tabs@.len() && #[trigger] tabs@[j].window_id
                        != #[trigger] tabs@[k].window_id
                        && !old_inner.window_map()@.contains_key(tabs@[j].window_id)
                        && !old_inner.window_map()@.contains_key(tabs@[k].window_id)
                        ==> new_inner.window_map()@[tabs@[j].window_id] != new_inner.window_map()@[tabs@[k].window_id]
            },
    {
        if self.inner.is_none() {
            return Err(DomainError::NotAttached);
        }
        let taken = self.inner.take();
        match taken {
            None => Err(DomainError::NotAttached),
            Some(mut inner) => {
                let ghost inner0 = inner;
                let ghost mux0 = *mux;
                let mut created: Vec<WindowId> = Vec::new();
                let mut i: usize = 0;
                assert(created@ =~= Seq::new(0, |k: int| (mux0.next_window_id() + k) as u64));
                assert(window_ids_of(mux.windows()) =~= window_ids_of(mux0.windows()) + created@);
                assert(mux.tabs() =~= mux0.tabs() + attached_tabs(tabs@.subrange(0, 0), self.local_domain_id, mux0.next_tab_id() as int));
                assert(inner.window_map()@.dom() =~= inner0.window_map()@.dom().union(remote_windows(tabs@.subrange(0, 0))));
                while i < tabs.len()
                    invariant
                        0 <= i <= tabs@.len(),
                        old(self).spec_inner() is Some,
                        inner0 == old(self).spec_inner()->0,
                        mux0 == *old(mux),
                        inner.wf(),
                        mux.wf(),
                        inner.client == inner0.client,
                        inner.local_domain_id == inner0.local_domain_id,
                        inner.local_domain_id == self.local_domain_id,
                        inner.remote_domain_id == inner0.remote_domain_id,
                        inner.tab_map() == inner0.tab_map(),
                        self.inner is None,
                        self.config == old(self).config,
                        self.local_domain_id == old(self).local_domain_id,
                        mux0.next_tab_id() + tabs@.len() <= u64::MAX,
                        mux0.next_window_id() + tabs@.len() <= u64::MAX,
                        mux.tabs() == mux0.tabs() + attached_tabs(
                            tabs@.subrange(0, i as int),
                            self.local_domain_id,
                            mux0.next_tab_id() as int,
                        ),
                        mux.next_tab_id() == mux0.next_tab_id() + i,
                        mux.next_window_id() == mux0.next_window_id() + created@.len(),
                        created@.len() <= i,
                        mux.windows().len() == mux0.windows().len() + created@.len(),
                        inner.window_map()@.dom() == inner0.window_map()@.dom().union(
                            remote_windows(tabs@.subrange(0, i as int)),
                        ),
                        inner0.window_map()@.dom().is_empty() ==> created@.len() == remote_windows(
                            tabs@.subrange(0, i as int),
                        ).len(),
                        forall|k: WindowId| #[trigger]
                            inner.window_map()@.contains_key(k) ==> mux.has_window(
                                inner.window_map()@[k],
                            ),
                        forall|j: int| 0 <= j < i ==> {
                            let w = inner.window_map()@[#[trigger] tabs@[j].window_id];
                            &&& inner.window_map()@.contains_key(tabs@[j].window_id)
                            &&& mux.has_window(w)
                            &&& mux.window_tabs(w).contains((mux0.next_tab_id() + j) as u64)
                        },
                        created@ == Seq::new(created@.len(), |k: int| (mux0.next_window_id() + k) as u64),
                        window_ids_of(mux.windows()) == window_ids_of(mux0.windows()) + created@,
                        forall|k: WindowId| #[trigger] inner0.window_map()@.contains_key(k)
                            ==> inner.window_map()@.contains_key(k) && inner.window_map()@[k]
                            == inner0.window_map()@[k],
                        forall|k: WindowId| #[trigger] inner.window_map()@.contains_key(k)
                            && !inner0.window_map()@.contains_key(k) ==> created@.contains(inner.window_map()@[k]),
                        forall|k1: WindowId, k2: WindowId|
                            #[trigger] inner.window_map()@.contains_key(k1) && #[trigger] inner.window_map()@.contains_key(k2)
                            && !inner0.window_map()@.contains_key(k1) && !inner0.window_map()@.contains_key(k2)
                            && k1 != k2 ==> inner.window_map()@[k1] != inner.window_map()@[k2],
                    decreases tabs@.len() - i,
                {
                    let ghost prev_dom = inner.window_map()@.dom();
                    let ghost prev_map = inner.window_map()@;
                    let ghost prev_mux = *mux;
                    let ghost prefix = tabs@.subrange(0, i as int);
                    let ghost prev_created = created@;
                    let entry = &tabs[i];
                    let tab_id = mux.add_tab(self.local_domain_id, Some(entry.tab_id), entry.size);
                    let ghost m1 = *mux;
                    let ghost mut m2 = *mux;
                    match inner.remote_to_local_window(entry.window_id) {
                        Some(local_window_id) => {
                            mux.add_tab_to_window(tab_id, local_window_id);
                        },
                        None => {
                            let local_window_id = mux.new_empty_window();
                            proof {
                                m2 = *mux;
                            }
                            inner.record_remote_to_local_window_mapping(entry.window_id, local_window_id);
                            mux.add_tab_to_window(tab_id, local_window_id);
                            created.push(local_window_id);
                            proof {
                                let v = local_window_id;
                                let fw = mux0.next_window_id();
                                assert(v == (fw + prev_created.len()) as u64);
                                assert(created@ =~= Seq::new(created@.len(), |k: int| (fw + k) as u64));
                                assert(window_ids_of(mux.windows()) =~= window_ids_of(mux0.windows()) + created@);
                                assert forall|k: WindowId| #[trigger] prev_map.contains_key(k)
                                    && !inner0.window_map()@.contains_key(k) implies prev_map[k] != v by {
                                    assert(prev_created.contains(prev_map[k]));
                                    let x = choose|x: int| 0 <= x < prev_created.len() && prev_created[x] == prev_map[k];
                                }
                                assert forall|k: WindowId| #[trigger] inner.window_map()@.contains_key(k)
                                    && !inner0.window_map()@.contains_key(k) implies created@.contains(inner.window_map()@[k]) by {
                                    if k == tabs@[i as int].window_id {
                                        assert(created@[created@.len() - 1] == v);
                                    } else {
                                        assert(prev_created.contains(prev_map[k]));
                                        let x = choose|x: int| 0 <= x < prev_created.len() && prev_created[x] == prev_map[k];
                                        assert(created@[x] == prev_map[k]);
                                    }
                                }
                            }
                        },
                    }
                    proof {
                        let t = (mux0.next_tab_id() + i) as u64;
                        let m = inner.window_map()@;
                        let wi = m[tabs@[i as int].window_id];
                        assert(m.contains_key(tabs@[i as int].window_id));
                        assert(mux.window_tabs(wi).contains(t)) by {
                            assert(mux.window_tabs(wi).last() == t);
                            assert(mux.window_tabs(wi)[mux.window_tabs(wi).len() - 1] == t);
                        }
                        assert forall|j: int| 0 <= j < i implies {
                            let w = m[#[trigger] tabs@[j].window_id];
                            &&& m.contains_key(tabs@[j].window_id)
                            &&& mux.has_window(w)
                            &&& mux.window_tabs(w).contains((mux0.next_tab_id() + j) as u64)
                        } by {
                            let k = tabs@[j].window_id;
                            let tj = (mux0.next_tab_id() + j) as u64;
                            assert(prev_map.contains_key(k));
                            assert(m[k] == prev_map[k]);
                            let w = prev_map[k];
                            assert(prev_mux.window_tabs(w).contains(tj));
                            let idx = choose|x: int| 0 <= x < prev_mux.window_tabs(w).len() && prev_mux.window_tabs(w)[x] == tj;
                            assert(m1.windows() == prev_mux.windows());
                            assert(prev_mux.has_window(w));
                            assert(m1.has_window(w));
                            assert(m1.window_tabs(w) == prev_mux.window_tabs(w));
                            assert(m2.has_window(w));
                            assert(m2.window_tabs(w) == m1.window_tabs(w));
                            if w == wi {
                                assert(mux.window_tabs(w)[idx] == tj);
                            } else {
                                assert(mux.window_tabs(w) == m2.window_tabs(w));
                            }
                        }
                        let next = tabs@.subrange(0, i + 1);
                        assert(next.drop_last() =~= prefix);
                        assert(next.last() == tabs@[i as int]);
                        lemma_remote_windows_finite(prefix);
                        assert(mux.tabs() =~= mux0.tabs() + attached_tabs(next, self.local_domain_id, mux0.next_tab_id() as int));
                        assert(inner.window_map()@.dom() =~= inner0.window_map()@.dom().union(remote_windows(next)));
                        if inner0.window_map()@.dom().is_empty() {
                            if prev_dom.contains(tabs@[i as int].window_id) {
                                assert(remote_windows(next) =~= remote_windows(prefix));
                            } else {
                                assert(!remote_windows(prefix).contains(tabs@[i as int].window_id));
                            }
                        }
                    }
                    i = i + 1;
                }
                assert(tabs@.subrange(0, tabs@.len() as int) =~= tabs@);
                assert forall|j: int| 0 <= j < tabs@.len() && !inner0.window_map()@.contains_key(
                    #[trigger] tabs@[j].window_id,
                ) implies created@.contains(inner.window_map()@[tabs@[j].window_id]) by {
                    assert(inner.window_map()@.contains_key(tabs@[j].window_id));
                }
                assert forall|j: int, k: int|
                    0 <= j < tabs@.len() && 0 <= k < tabs@.len() && #[trigger] tabs@[j].window_id
                        != #[trigger] tabs@[k].window_id
                        && !inner0.window_map()@.contains_key(tabs@[j].window_id)
                        && !inner0.window_map()@.contains_key(tabs@[k].window_id)
                        implies inner.window_map()@[tabs@[j].window_id] != inner.window_map()@[tabs@[k].window_id] by {
                    assert(inner.window_map()@.contains_key(tabs@[j].window_id));
                    assert(inner.window_map()@.contains_key(tabs@[k].window_id));
                }
                self.inner = Some(inner);
                Ok(created)
            },
        }
    }
}

} // verus!
