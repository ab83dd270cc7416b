//! A managed, containerized blockchain test fixture, modeled as verified
//! state-transition logic: the container itself and all I/O live outside this
//! crate, hand in plain command outputs, and take back exact command lines.
//! The fixture owns the two pieces of shared mutable state with real
//! invariants: the account pool (lease/release) and the deployment dedup
//! cache (check-and-record).
pub mod deploy;
pub mod error;
pub mod strutil;
pub mod transfer;
pub mod utils;

use vstd::prelude::*;

use crate::deploy::{
    cache_contains, cache_record, contract_key, contract_key_spec, named_addresses_param_spec,
    publish_commands, publish_commands_spec, record_spec, should_publish_spec,
};
use crate::error::ContainerError;
use crate::strutil::{
    all_distinct, clone_string_vec, dec_rep, dedup_spec, dedup_strings, join_commas, path_join,
    split_commas, trim_spec, trim_ws, views_of,
};
use crate::transfer::{
    b64_of, file_chunk_commands, manifest_command, overwrite_spec, remove_dir_command,
    remove_dir_spec, stage_files_spec, CONTENT_MAX_CHARS,
};

verus! {

/// A shell command run inside the container fails exactly when its exit code
/// is anything other than zero; on success both drained streams are returned.
pub fn run_command_outcome(code: i64, stdout: String, stderr: String) -> (r: Result<
    (String, String),
    ContainerError,
>)
    ensures
        code == 0 ==> (r matches Ok(p) && p.0@ == stdout@ && p.1@ == stderr@),
        code != 0 ==> r == Result::<(String, String), ContainerError>::Err(
            (ContainerError::CommandExecutionFailed { code }),
        ),
{
    if code != 0 {
        Err(ContainerError::CommandExecutionFailed { code })
    } else {
        Ok((stdout, stderr))
    }
}

/// A transfer chunk command succeeds only with empty stderr; anything on
/// stderr aborts the whole staging operation.
pub fn transfer_step_outcome(command: String, stderr: String) -> (r: Result<(), ContainerError>)
    ensures
        stderr@.len() == 0 ==> r is Ok,
        stderr@.len() > 0 ==> r == Result::<(), ContainerError>::Err(
            (ContainerError::CommandOutputFailed { command, stderr }),
        ),
{
    if stderr.as_str().is_empty() {
        Ok(())
    } else {
        Err(ContainerError::CommandOutputFailed { command, stderr })
    }
}

/// The node URL a managed container exposes on the host.
pub open spec fn node_url_spec_of(host: Seq<char>, port: u16) -> Seq<char> {
    "http://"@ + host + seq![':'] + dec_rep(port as nat)
}

/// The container-side state of the fixture: resolved configuration, the
/// deployment dedup cache, and the account pool.
pub struct AptosContainer {
    node_url: String,
    inner_url: String,
    chain_id: u8,
    deploy_contract: bool,
    override_accounts: Option<Vec<String>>,
    contract_path: String,
    contracts: Vec<String>,
    accounts: Vec<String>,
    available: Vec<String>,
    accounts_initialized: bool,
}

/// The fixture interface a test sees: a node URL, and accounts leased from
/// and released back to a shared pool.
pub trait TestContainer {
    spec fn node_url_view(&self) -> Seq<char>;

    spec fn ready_spec(&self) -> bool;

    spec fn override_view(&self) -> Option<Seq<Seq<char>>>;

    spec fn available_view(&self) -> Seq<Seq<char>>;

    fn get_node_url(&self) -> (r: String)
        ensures
            r@ == self.node_url_view(),
    ;

    /// Takes `n` accounts from the front of the available queue, or reports
    /// that the caller must wait; a fixed override list bypasses the queue.
    fn lease(&mut self, n: usize) -> (r: Option<Vec<String>>)
        requires
            old(self).ready_spec(),
        ensures
            final (self).node_url_view() == old(self).node_url_view(),
            final (self).ready_spec(),
            final (self).override_view() == old(self).override_view(),
            match old(self).override_view() {
                Some(list) => (r matches Some(v) && views_of(v@) == list && final (self).available_view() == old(self).available_view()),
                None => (if old(self).available_view().len() >= n {
                    r matches Some(v) && v@.len() == n && views_of(v@) == old(
                        self,
                    ).available_view().take(n as int) && final (self).available_view() == old(
                        self,
                    ).available_view().skip(n as int)
                } else {
                    r is None && final (self).available_view() == old(self).available_view()
                }),
            },
    ;

    /// Returns previously leased accounts to the back of the available queue.
    fn release(&mut self, accounts: Vec<String>)
        ensures
            final (self).node_url_view() == old(self).node_url_view(),
            final (self).ready_spec() == old(self).ready_spec(),
            final (self).override_view() == old(self).override_view(),
            match old(self).override_view() {
                Some(_) => final (self).available_view() == old(self).available_view(),
                None => final (self).available_view() == old(self).available_view() + views_of(
                    accounts@,
                ),
            },
    ;
}

impl AptosContainer {
    pub closed spec fn inner_url_view(&self) -> Seq<char> {
        self.inner_url@
    }

    pub closed spec fn chain_id_spec(&self) -> u8 {
        self.chain_id
    }

    pub closed spec fn deploy_contract_spec(&self) -> bool {
        self.deploy_contract
    }

    pub closed spec fn contract_root_view(&self) -> Seq<char> {
        self.contract_path@
    }

    pub closed spec fn cache_view(&self) -> Seq<Seq<char>> {
        views_of(self.contracts@)
    }

    pub closed spec fn roster_view(&self) -> Seq<Seq<char>> {
        views_of(self.accounts@)
    }

    pub closed spec fn initialized_spec(&self) -> bool {
        self.accounts_initialized
    }

    /// The configuration fields never change after construction.
    pub open spec fn same_config(a: &AptosContainer, b: &AptosContainer) -> bool {
        a.node_url_view() == b.node_url_view() && a.inner_url_view() == b.inner_url_view()
            && a.chain_id_spec() == b.chain_id_spec() && a.deploy_contract_spec()
            == b.deploy_contract_spec() && a.override_view() == b.override_view()
            && a.contract_root_view() == b.contract_root_view()
    }

    /// Builds the fixture state from the resolved configuration: a managed
    /// node reachable at `host:port`, or an unmanaged external node with a
    /// fixed account list.
    pub fn new(
        enable_node: bool,
        node_urls: Option<Vec<String>>,
        chain_id_cfg: Option<u8>,
        deploy_cfg: Option<bool>,
        accounts_cfg: Option<Vec<String>>,
        host: &str,
        port: u16,
    ) -> (r: Self)
        requires
            !enable_node ==> (node_urls matches Some(u) && u@.len() >= 1),
            !enable_node ==> accounts_cfg is Some,
            !enable_node ==> chain_id_cfg is Some,
        ensures
            enable_node ==> (r.node_url_view() == node_url_spec_of(host@, port)
                && r.inner_url_view() == "http://localhost:8080"@ && r.deploy_contract_spec()
                && r.override_view() is None && r.chain_id_spec() == 4),
            !enable_node ==> (match node_urls {
                Some(u) => r.node_url_view() == u@[0]@,
                None => false,
            }),
            !enable_node ==> r.inner_url_view() == r.node_url_view(),
            !enable_node ==> r.deploy_contract_spec() == (match deploy_cfg {
                Some(b) => b,
                None => true,
            }),
            !enable_node ==> (match accounts_cfg {
                Some(a) => r.override_view() == Some(views_of(a@)),
                None => false,
            }),
            !enable_node ==> (match chain_id_cfg {
                Some(c) => r.chain_id_spec() == c,
                None => false,
            }),
            r.contract_root_view() == "/contract"@,
            r.cache_view().len() == 0,
            r.roster_view().len() == 0,
            r.available_view().len() == 0,
            !r.initialized_spec(),
            enable_node ==> !r.ready_spec(),
            !enable_node ==> r.ready_spec(),
    {
        if enable_node {
            proof {
                reveal_strlit(":");
            }
            let mut url = "http://".to_owned();
            url.append(host);
            url.append(":");
            let port_dec = crate::strutil::u16_dec(port);
            url.append(port_dec.as_str());
            AptosContainer {
                node_url: url,
                inner_url: "http://localhost:8080".to_owned(),
                chain_id: 4,
                deploy_contract: true,
                override_accounts: None,
                contract_path: "/contract".to_owned(),
                contracts: Vec::new(),
                accounts: Vec::new(),
                available: Vec::new(),
                accounts_initialized: false,
            }
        } else {
            let urls = node_urls.unwrap();
            let url = urls[0].clone();
            let chain = chain_id_cfg.unwrap();
            let deploy = match deploy_cfg {
                Some(b) => b,
                None => true,
            };
            let accts = accounts_cfg.unwrap();
            AptosContainer {
                node_url: url.clone(),
                inner_url: url,
                chain_id: chain,
                deploy_contract: deploy,
                override_accounts: Some(accts),
                contract_path: "/contract".to_owned(),
                contracts: Vec::new(),
                accounts: Vec::new(),
                available: Vec::new(),
                accounts_initialized: false,
            }
        }
    }

    /// The environment-inspection command whose output lists the pre-funded
    /// accounts, comma separated.
    pub fn roster_query_command() -> (r: String)
        ensures
            r@ == "echo $ACCOUNTS"@,
    {
        "echo $ACCOUNTS".to_owned()
    }

    /// True exactly when initialization still has work to do, so the roster
    /// query runs at most once per fixture.
    pub fn needs_roster_query(&self) -> (r: bool)
        ensures
            r == !self.ready_spec(),
    {
        if self.override_accounts.is_some() {
            false
        } else {
            !self.accounts_initialized
        }
    }

    /// Applies the roster query's output: idempotent, and a no-op whenever the
    /// pool is already ready, so concurrent initializers agree on one result.
    /// Empty output fails initialization; otherwise the trimmed output split
    /// on commas becomes the roster, and the available queue is seeded with
    /// every distinct account exactly once.
    pub fn lazy_init_accounts(&mut self, roster_stdout: &str) -> (r: Result<(), ContainerError>)
        ensures
            Self::same_config(old(self), final (self)),
            final (self).cache_view() == old(self).cache_view(),
            old(self).ready_spec() ==> (r is Ok && final (self).roster_view() == old(
                self,
            ).roster_view() && final (self).available_view() == old(self).available_view() && final (self).initialized_spec() == old(self).initialized_spec()),
            !old(self).ready_spec() && roster_stdout@.len() == 0 ==> (r == Result::<
                (),
                ContainerError,
            >::Err(ContainerError::InitializationFailed) && final (self).roster_view() == old(
                self,
            ).roster_view() && final (self).available_view() == old(self).available_view()
                && !final (self).initialized_spec()),
            !old(self).ready_spec() && roster_stdout@.len() > 0 ==> (r is Ok && final (self).initialized_spec() && final (self).roster_view().len() >= 1 && join_commas(
                final (self).roster_view(),
            ) == trim_spec(roster_stdout@) && (forall|k: int|
                0 <= k < final (self).roster_view().len() ==> !final (self).roster_view()[k].contains(
                    ',',
                )) && final (self).available_view() == dedup_spec(final (self).roster_view())
                && all_distinct(final (self).available_view())),
            r is Ok ==> final (self).ready_spec(),
    {
        if self.override_accounts.is_some() || self.accounts_initialized {
            return Ok(());
        }
        if roster_stdout.is_empty() {
            return Err(ContainerError::InitializationFailed);
        }
        let trimmed = trim_ws(roster_stdout);
        let parsed = split_commas(trimmed);
        self.available = dedup_strings(&parsed);
        self.accounts = parsed;
        self.accounts_initialized = true;
        Ok(())
    }

    /// Releases the leased accounts unconditionally — the callback's result is
    /// only propagated, never allowed to keep accounts out of the pool.
    pub fn finish_run(&mut self, leased: Vec<String>, callback_result: Result<
        (),
        ContainerError,
    >) -> (r: Result<(), ContainerError>)
        ensures
            final (self).node_url_view() == old(self).node_url_view(),
            final (self).ready_spec() == old(self).ready_spec(),
            final (self).override_view() == old(self).override_view(),
            match old(self).override_view() {
                Some(_) => final (self).available_view() == old(self).available_view(),
                None => final (self).available_view() == old(self).available_view() + views_of(
                    leased@,
                ),
            },
            r == callback_result,
    {
        self.release(leased);
        callback_result
    }

    /// Whether an upload call proceeds to staging and publishing: never when
    /// contract deployment is disabled, and not when the key is already cached
    /// unless the caller overrides.
    pub fn should_publish(&self, key: &String, override_contract: bool) -> (r: bool)
        ensures
            r == should_publish_spec(
                self.deploy_contract_spec(),
                self.cache_view().contains(key@),
                override_contract,
            ),
    {
        self.deploy_contract && (override_contract || !cache_contains(&self.contracts, key))
    }

    /// Records the key as deployed only when the publish succeeded; a failed
    /// publish leaves the cache untouched so a retry re-attempts the upload.
    pub fn record_published(&mut self, key: String, publish_result: Result<
        (),
        ContainerError,
    >) -> (r: Result<(), ContainerError>)
        ensures
            Self::same_config(old(self), final (self)),
            final (self).roster_view() == old(self).roster_view(),
            final (self).available_view() == old(self).available_view(),
            final (self).initialized_spec() == old(self).initialized_spec(),
            publish_result is Ok ==> (r is Ok && final (self).cache_view() == record_spec(
                old(self).cache_view(),
                key@,
            )),
            publish_result is Err ==> (r == publish_result && final (self).cache_view() == old(
                self,
            ).cache_view()),
    {
        match publish_result {
            Ok(u) => {
                cache_record(&mut self.contracts, key);
                Ok(u)
            },
            Err(e) => Err(e),
        }
    }

    /// The ordered command list that stages one contract source tree into a
    /// fresh directory: clear the directory, then transfer every file chunk by
    /// chunk, strictly in order.
    pub fn copy_contracts(&self, dir_name: &str, files: &Vec<(String, Vec<u8>)>) -> (r: (
        String,
        Vec<String>,
    ))
        ensures
            r.0@ == self.contract_root_view() + seq!['/'] + dir_name@,
            views_of(r.1@) == seq![remove_dir_spec(r.0@)] + stage_files_spec(
                r.0@,
                files@,
                CONTENT_MAX_CHARS as nat,
            ),
    {
        let staging = path_join(self.contract_path.as_str(), dir_name);
        let mut cmds: Vec<String> = Vec::new();
        let rm = remove_dir_command(staging.as_str());
        let ghost rm_view = rm@;
        cmds.push(rm);
        proof {
            assert(views_of(cmds@) =~= seq![rm_view]);
            assert(stage_files_spec(staging@, files@.take(0), CONTENT_MAX_CHARS as nat) =~= Seq::<
                Seq<char>,
            >::empty());
            assert(views_of(cmds@) =~= seq![rm_view] + stage_files_spec(
                staging@,
                files@.take(0),
                CONTENT_MAX_CHARS as nat,
            ));
        }
        let mut i: usize = 0;
        while i < files.len()
            invariant
                i <= files@.len(),
                staging@ == self.contract_root_view() + seq!['/'] + dir_name@,
                rm_view == remove_dir_spec(staging@),
                views_of(cmds@) =~= seq![rm_view] + stage_files_spec(
                    staging@,
                    files@.take(i as int),
                    CONTENT_MAX_CHARS as nat,
                ),
            decreases files@.len() - i,
        {
            let entry = &files[i];
            let dest = path_join(staging.as_str(), entry.0.as_str());
            let mut file_cmds = file_chunk_commands(dest.as_str(), &entry.1, CONTENT_MAX_CHARS);
            let ghost prev = cmds@;
            let ghost added = file_cmds@;
            cmds.append(&mut file_cmds);
            proof {
                assert(views_of(cmds@) =~= views_of(prev) + views_of(added));
                assert(files@.take(i + 1).drop_last() =~= files@.take(i as int));
                assert(files@.take(i + 1).last() == files@[i as int]);
                assert(views_of(cmds@) =~= seq![rm_view] + stage_files_spec(
                    staging@,
                    files@.take(i + 1),
                    CONTENT_MAX_CHARS as nat,
                ));
            }
            i = i + 1;
        }
        proof {
            assert(files@.take(files@.len() as int) =~= files@);
        }
        (staging, cmds)
    }

    /// The full roster populated by initialization.
    pub fn get_all_accounts(&self) -> (r: Vec<String>)
        ensures
            views_of(r@) == self.roster_view(),
    {
        clone_string_vec(&self.accounts)
    }

    /// How many accounts are available for leasing right now.
    pub fn available_count(&self) -> (r: usize)
        ensures
            r == self.available_view().len(),
    {
        self.available.len()
    }

    /// The chain id the fixture was configured with.
    pub fn get_chain_id(&self) -> (r: u8)
        ensures
            r == self.chain_id_spec(),
    {
        self.chain_id
    }

    /// The publish invocations for one staged upload, against this fixture's
    /// in-container node URL.
    pub fn publish_plan(
        &self,
        staging: &str,
        private_key: &str,
        named_addresses: &Vec<(String, String)>,
        sub_packages: &Option<Vec<String>>,
    ) -> (r: Vec<String>)
        ensures
            views_of(r@) == publish_commands_spec(
                staging@,
                private_key@,
                named_addresses_param_spec(named_addresses@),
                self.inner_url_view(),
                match sub_packages {
                    Some(v) => Some(views_of(v@)),
                    None => None,
                },
            ),
    {
        let params = crate::deploy::named_addresses_param(named_addresses);
        publish_commands(
            staging,
            private_key,
            params.as_str(),
            self.inner_url.as_str(),
            sub_packages,
        )
    }
}

/// Everything one upload performs, in order: the staging directory, the
/// transfer commands (clear, then chunks, then the placeholder manifest where
/// none is shipped), and the publish invocations.
pub struct UploadPlan {
    pub staging: String,
    pub transfer_commands: Vec<String>,
    pub publish_commands: Vec<String>,
}

impl AptosContainer {
    /// The whole upload decision in one step: `None` exactly when nothing is
    /// to be published — deployment disabled, or the key already cached and
    /// no override requested. Otherwise the complete ordered command plan.
    pub fn upload_plan(
        &self,
        private_key: &str,
        absolute_dir: &str,
        dir_name: &str,
        files: &Vec<(String, Vec<u8>)>,
        named_addresses: &Vec<(String, String)>,
        sub_packages: &Option<Vec<String>>,
        override_contract: bool,
    ) -> (r: Option<UploadPlan>)
        ensures
            (r is Some) == should_publish_spec(
                self.deploy_contract_spec(),
                self.cache_view().contains(contract_key_spec(private_key@, absolute_dir@)),
                override_contract,
            ),
            match r {
                Some(p) => {
                    &&& p.staging@ == self.contract_root_view() + seq!['/'] + dir_name@
                    &&& views_of(p.transfer_commands@) == seq![remove_dir_spec(p.staging@)]
                        + stage_files_spec(p.staging@, files@, CONTENT_MAX_CHARS as nat) + (
                    match sub_packages {
                        None => seq![
                            overwrite_spec(
                                p.staging@ + seq!['/'] + "Move.toml"@,
                                b64_of(seq![0u8]),
                            ),
                        ],
                        Some(_) => Seq::<Seq<char>>::empty(),
                    })
                    &&& views_of(p.publish_commands@) == publish_commands_spec(
                        p.staging@,
                        private_key@,
                        named_addresses_param_spec(named_addresses@),
                        self.inner_url_view(),
                        match sub_packages {
                            Some(v) => Some(views_of(v@)),
                            None => None,
                        },
                    )
                },
                None => true,
            },
    {
        let key = contract_key(private_key, absolute_dir);
        if !self.should_publish(&key, override_contract) {
            return None;
        }
        let (staging, mut cmds) = self.copy_contracts(dir_name, files);
        if sub_packages.is_none() {
            let manifest = manifest_command(staging.as_str());
            let ghost prev = cmds@;
            let ghost manifest_view = manifest@;
            cmds.push(manifest);
            proof {
                assert(views_of(cmds@) =~= views_of(prev).push(manifest_view));
                assert(views_of(cmds@) =~= views_of(prev) + seq![manifest_view]);
            }
        } else {
            proof {
                assert(views_of(cmds@) + Seq::<Seq<char>>::empty() =~= views_of(cmds@));
            }
        }
        let pubs = self.publish_plan(staging.as_str(), private_key, named_addresses, sub_packages);
        Some(UploadPlan { staging, transfer_commands: cmds, publish_commands: pubs })
    }
}

impl TestContainer for AptosContainer {
    closed spec fn node_url_view(&self) -> Seq<char> {
        self.node_url@
    }

    closed spec fn ready_spec(&self) -> bool {
        self.override_accounts is Some || self.accounts_initialized
    }

    closed spec fn override_view(&self) -> Option<Seq<Seq<char>>> {
        match self.override_accounts {
            Some(v) => Some(views_of(v@)),
            None => None,
        }
    }

    closed spec fn available_view(&self) -> Seq<Seq<char>> {
        views_of(self.available@)
    }

    fn get_node_url(&self) -> (r: String) {
        self.node_url.clone()
    }

    fn lease(&mut self, n: usize) -> (r: Option<Vec<String>>) {
        match &self.override_accounts {
            Some(list) => {
                let fixed = clone_string_vec(list);
                Some(fixed)
            },
            None => {
                if self.available.len() >= n {
                    let mut out: Vec<String> = Vec::new();
                    let mut j: usize = 0;
                    while j < n
                        invariant
                            j <= n <= old(self).available@.len(),
                            out@ == old(self).available@.take(j as int),
                            self.available@ == old(self).available@.skip(j as int),
                            self.node_url == old(self).node_url,
                            self.override_accounts == old(self).override_accounts,
                            self.accounts_initialized == old(self).accounts_initialized,
                            self.accounts == old(self).accounts,
                            self.contracts == old(self).contracts,
                        decreases n - j,
                    {
                        let first = self.available.remove(0);
                        out.push(first);
                        proof {
                            assert(self.available@ =~= old(self).available@.skip(j + 1));
                            assert(out@ =~= old(self).available@.take(j + 1));
                        }
                        j = j + 1;
                    }
                    proof {
                        assert(views_of(out@) =~= views_of(old(self).available@).take(n as int));
                        assert(views_of(self.available@) =~= views_of(old(self).available@).skip(
                            n as int,
                        ));
                    }
                    Some(out)
                } else {
                    None
                }
            },
        }
    }

    fn release(&mut self, accounts: Vec<String>) {
        if self.override_accounts.is_some() {
            return;
        }
        let mut i: usize = 0;
        while i < accounts.len()
            invariant
                i <= accounts@.len(),
                self.available@ == old(self).available@ + accounts@.take(i as int),
                self.node_url == old(self).node_url,
                self.override_accounts == old(self).override_accounts,
                self.accounts_initialized == old(self).accounts_initialized,
            decreases accounts@.len() - i,
        {
            let a = accounts[i].clone();
            let ghost prev = self.available@;
            self.available.push(a);
            proof {
                assert(self.available@ =~= old(self).available@ + accounts@.take(i + 1));
            }
            i = i + 1;
        }
        proof {
            assert(accounts@.take(accounts@.len() as int) =~= accounts@);
            assert(views_of(self.available@) =~= views_of(old(self).available@) + views_of(
                accounts@,
            ));
        }
    }
}

/// Two leases taken from a duplicate-free queue while both stay outstanding
/// never share an account.
pub proof fn lemma_concurrent_leases_disjoint(q: Seq<Seq<char>>, n1: int, n2: int)
    requires
        all_distinct(q),
        0 <= n1,
        0 <= n2,
        n1 + n2 <= q.len(),
    ensures
        forall|x: Seq<char>|
            q.take(n1).contains(x) ==> !(#[trigger] q.skip(n1).take(n2).contains(x)),
{
    assert forall|x: Seq<char>|
        q.take(n1).contains(x) implies !(#[trigger] q.skip(n1).take(n2).contains(x)) by {
        if q.skip(n1).take(n2).contains(x) {
            let i = choose|i: int| 0 <= i < n1 && q.take(n1)[i] == x;
            let j = choose|j: int| 0 <= j < n2 && q.skip(n1).take(n2)[j] == x;
            assert(q[i] == x);
            assert(q[n1 + j] == x);
        }
    }
}

/// A lease taken from a duplicate-free queue holds no duplicate account, and
/// leaves the queue duplicate-free.
pub proof fn lemma_lease_distinct(q: Seq<Seq<char>>, n: int)
    requires
        all_distinct(q),
        0 <= n <= q.len(),
    ensures
        all_distinct(q.take(n)),
        all_distinct(q.skip(n)),
{
}

/// A fixture running in override mode is ready without initialization.
pub proof fn lemma_override_implies_ready(c: &AptosContainer)
    ensures
        c.override_view() is Some ==> c.ready_spec(),
{
}

/// After a lease of `n` accounts is released, the queue holds the same
/// accounts as before, as a multiset, and is back to full size.
pub proof fn lemma_release_restores_pool(q: Seq<Seq<char>>, n: int)
    requires
        0 <= n <= q.len(),
    ensures
        (q.skip(n) + q.take(n)).to_multiset() == q.to_multiset(),
        (q.skip(n) + q.take(n)).len() == q.len(),
{
    vstd::seq_lib::lemma_seq_union_to_multiset_commutative(q.skip(n), q.take(n));
    assert(q.take(n) + q.skip(n) =~= q);
    assert((q.skip(n) + q.take(n)).to_multiset() =~= q.to_multiset());
}

} // verus!
