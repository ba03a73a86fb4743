//! The configuration file's content and what the server takes from it.
use crate::errors::AppErr;
use crate::server::Server;
use vstd::prelude::*;

verus! {

/// The main configuration: an optional request size limit and the servers.
pub struct Config {
    pub size_limit: Option<u64>,
    pub servers: Vec<Server>,
}

/// The servers of `s` whose configuration is valid, in order.
pub open spec fn valid_servers(s: Seq<Server>) -> Seq<Server>
    decreases s.len(),
{
    if s.len() == 0 {
        Seq::empty()
    } else if s.last().valid() {
        valid_servers(s.drop_last()).push(s.last())
    } else {
        valid_servers(s.drop_last())
    }
}

/// The positions (counted from 1) of the servers of `s` that are not valid.
pub open spec fn invalid_positions(s: Seq<Server>) -> Seq<usize>
    decreases s.len(),
{
    if s.len() == 0 {
        Seq::empty()
    } else if s.last().valid() {
        invalid_positions(s.drop_last())
    } else {
        invalid_positions(s.drop_last()).push(s.len() as usize)
    }
}

/// The request size limit used when the configuration gives none: 2 MiB.
pub open spec fn default_size_limit() -> u64 {
    2097152
}

/// Builds the server list and size limit of a loaded configuration.
pub struct Loader;

impl Config {
    /// The servers, when there is at least one.
    pub fn servers(self) -> (r: Option<Vec<Server>>)
        ensures
            self.servers@.len() == 0 ==> r is None,
            self.servers@.len() > 0 ==> r == Some(self.servers),
    {
        if self.servers.len() == 0 {
            None
        } else {
            Some(self.servers)
        }
    }

    /// The configured size limit.
    pub fn size_limit(&self) -> (r: Option<u64>)
        ensures
            r == self.size_limit,
    {
        self.size_limit
    }

    /// Removes every server whose configuration is invalid, keeping the order
    /// of the others; returns the positions (from 1) of the removed ones, for
    /// the warning that names them.
    pub fn clean(&mut self) -> (removed: Vec<usize>)
        ensures
            final(self).servers@ == valid_servers(old(self).servers@),
            final(self).size_limit == old(self).size_limit,
            removed@ == invalid_positions(old(self).servers@),
    {
        let mut rest: Vec<Server> = Vec::new();
        std::mem::swap(&mut rest, &mut self.servers);
        let ghost all = rest@;
        let n = rest.len();
        let mut kept: Vec<Server> = Vec::new();
        let mut removed: Vec<usize> = Vec::new();
        let mut idx: usize = 0;
        assert(all.take(0) =~= Seq::<Server>::empty());
        while idx < n
            invariant
                n == all.len(),
                idx <= n,
                rest@ == all.skip(idx as int),
                kept@ == valid_servers(all.take(idx as int)),
                removed@ == invalid_positions(all.take(idx as int)),
            decreases n - idx,
        {
            proof {
                assert(all.take(idx + 1).drop_last() =~= all.take(idx as int));
                assert(all.take(idx + 1).last() == all[idx as int]);
            }
            let server = rest.remove(0);
            assert(rest@ =~= all.skip(idx + 1));
            idx = idx + 1;
            if server.has_valid_config() {
                kept.push(server);
            } else {
                removed.push(idx);
            }
        }
        assert(all.take(n as int) =~= all);
        self.servers = kept;
        removed
    }

    /// What the server runs with: the servers and the size limit (2 MiB when
    /// none is configured); no server at all is an error.
    pub fn settings(self) -> (r: Result<(Vec<Server>, u64), AppErr>)
        ensures
            self.servers@.len() == 0 ==> r matches Err(AppErr::NoServer),
            self.servers@.len() > 0 ==> (r matches Ok((s, limit)) && s == self.servers && limit == (
            match self.size_limit {
                Some(l) => l,
                None => default_size_limit(),
            })),
    {
        let size_limit = match self.size_limit() {
            Some(l) => l,
            None => 2 * 1024 * 1024,
        };
        match self.servers() {
            Some(servers) => Ok((servers, size_limit)),
            None => Err(AppErr::NoServer),
        }
    }
}

impl Loader {
    /// A loaded configuration made ready: invalid servers are dropped (their
    /// positions are returned for the warning), then the settings are taken.
    pub fn prepare(config: Config) -> (r: (Result<(Vec<Server>, u64), AppErr>, Vec<usize>))
        ensures
            r.1@ == invalid_positions(config.servers@),
            valid_servers(config.servers@).len() == 0 ==> r.0 matches Err(AppErr::NoServer),
            valid_servers(config.servers@).len() > 0 ==> (r.0 matches Ok((s, limit)) && s@
                == valid_servers(config.servers@) && limit == (match config.size_limit {
                Some(l) => l,
                None => default_size_limit(),
            })),
    {
        let mut config = config;
        let removed = config.clean();
        (config.settings(), removed)
    }
}

/// Cleaning keeps only valid servers, drops or keeps each one exactly once,
/// and a cleaned list is left as it is by a second cleaning.
pub proof fn lemma_clean_laws(s: Seq<Server>)
    ensures
        forall|i: int|
            0 <= i < valid_servers(s).len() ==> (#[trigger] valid_servers(s)[i]).valid(),
        valid_servers(s).len() + invalid_positions(s).len() == s.len(),
        valid_servers(valid_servers(s)) == valid_servers(s),
        invalid_positions(valid_servers(s)).len() == 0,
    decreases s.len(),
{
    if s.len() > 0 {
        lemma_clean_laws(s.drop_last());
        let init = valid_servers(s.drop_last());
        if s.last().valid() {
            let r = init.push(s.last());
            assert(r.drop_last() =~= init);
            assert forall|i: int| 0 <= i < r.len() implies (#[trigger] r[i]).valid() by {
                if i < init.len() {
                    assert(r[i] == init[i]);
                }
            }
        }
    }
}

} // verus!
