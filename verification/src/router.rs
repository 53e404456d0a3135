//! The tenant configuration and the routing of requests to tenants.
//!
//! A request goes to the tenant whose host equals the `Host` header without
//! its port; failing that, to the tenant with the longest path prefix; failing
//! that, to nobody.

use vstd::prelude::*;
use vstd::utf8::encode_utf8;

use crate::env::{Env, value_of};
use crate::text::{before, has_prefix, lemma_no_split, lemma_split_at_first, pairs, same_text,
    take_before};

verus! {

/// The standard library's file system path. Nothing is claimed of it: the
/// library only carries paths along.
#[verifier::external_type_specification]
#[verifier::external_body]
pub struct ExPathBuf(std::path::PathBuf);

/// The configuration of a server with all its tenants.
#[derive(Debug)]
pub struct Config {
    pub server: ServerConfig,
    pub limits: Limits,
    pub workers: Vec<WorkerDef>,
}

/// Where and with how many worker threads the server runs.
#[derive(Debug)]
pub struct ServerConfig {
    pub listen: String,
    pub worker_threads: usize,
}

/// The resource limits that hold for every worker.
#[derive(Debug, Clone, Copy, PartialEq, Eq)]
pub struct Limits {
    /// CPU time per request, in milliseconds.
    pub cpu_ms: u64,
    /// Heap size per isolate, in MiB.
    pub heap_mb: usize,
    /// How many isolates the whole process keeps warm.
    pub isolates_max: usize,
    /// Wall-clock time per request, in milliseconds.
    pub wall_timeout_ms: u64,
}

impl Default for Limits {
    fn default() -> (limits: Self)
        ensures
            limits == (Limits {
                cpu_ms: 50,
                heap_mb: 64,
                isolates_max: 16,
                wall_timeout_ms: 10_000,
            }),
    {
        Limits { cpu_ms: 50, heap_mb: 64, isolates_max: 16, wall_timeout_ms: 10_000 }
    }
}

/// One tenant.
#[derive(Debug)]
pub struct WorkerDef {
    pub name: String,
    pub script: std::path::PathBuf,
    pub route: Route,
    pub env: Env,
}

/// What requests a tenant gets.
#[derive(Debug)]
pub struct Route {
    pub host: Option<String>,
    pub path: Option<String>,
}

/// A configuration as it was written down, in which most things may be left out.
#[derive(Debug)]
pub struct WrittenConfig {
    pub listen: Option<String>,
    pub worker_threads: Option<usize>,
    pub cpu_ms: Option<u64>,
    pub heap_mb: Option<usize>,
    pub isolates_max: Option<usize>,
    pub wall_timeout_ms: Option<u64>,
    pub workers: Vec<WorkerDef>,
}

/// The address to listen on where none is configured.
pub fn default_listen() -> (listen: String)
    ensures
        listen@ == "127.0.0.1:8787"@,
{
    "127.0.0.1:8787".to_owned()
}

/// The number of worker threads where none is configured.
pub fn default_worker_threads() -> (threads: usize)
    ensures
        threads == 4,
{
    4
}

/// What was written down, or `default` where nothing was.
pub open spec fn or_default<T>(written: Option<T>, default: T) -> T {
    match written {
        Some(value) => value,
        None => default,
    }
}

impl Config {
    /// Completes a written configuration with the defaults.
    pub fn with_defaults(written: WrittenConfig) -> (config: Config)
        ensures
            config.server.listen@ == match written.listen {
                Some(listen) => listen@,
                None => "127.0.0.1:8787"@,
            },
            config.server.worker_threads == or_default(written.worker_threads, 4),
            config.limits.cpu_ms == or_default(written.cpu_ms, 50),
            config.limits.heap_mb == or_default(written.heap_mb, 64),
            config.limits.isolates_max == or_default(written.isolates_max, 16),
            config.limits.wall_timeout_ms == or_default(written.wall_timeout_ms, 10_000),
            config.workers == written.workers,
    {
        let limits = Limits::default();
        Config {
            server: ServerConfig {
                listen: match written.listen {
                    Some(listen) => listen,
                    None => default_listen(),
                },
                worker_threads: match written.worker_threads {
                    Some(threads) => threads,
                    None => default_worker_threads(),
                },
            },
            limits: Limits {
                cpu_ms: written.cpu_ms.unwrap_or(limits.cpu_ms),
                heap_mb: written.heap_mb.unwrap_or(limits.heap_mb),
                isolates_max: written.isolates_max.unwrap_or(limits.isolates_max),
                wall_timeout_ms: written.wall_timeout_ms.unwrap_or(limits.wall_timeout_ms),
            },
            workers: written.workers,
        }
    }
}

/// The (host, tenant) pairs that `defs` declares, in that order.
pub open spec fn host_rules(defs: Seq<WorkerDef>) -> Seq<(Seq<char>, Seq<char>)>
    decreases defs.len(),
{
    if defs.len() == 0 {
        Seq::empty()
    } else {
        let rules = host_rules(defs.drop_last());
        match defs.last().route.host {
            Some(host) => rules.push((host@, defs.last().name@)),
            None => rules,
        }
    }
}

/// The (path prefix, tenant) pairs that `defs` declares, in that order.
pub open spec fn path_rules(defs: Seq<WorkerDef>) -> Seq<(Seq<char>, Seq<char>)>
    decreases defs.len(),
{
    if defs.len() == 0 {
        Seq::empty()
    } else {
        let rules = path_rules(defs.drop_last());
        match defs.last().route.path {
            Some(path) => rules.push((path@, defs.last().name@)),
            None => rules,
        }
    }
}

/// The rule with the longest prefix of `path`, the first one where several have it.
pub open spec fn longest_rule(
    rules: Seq<(Seq<char>, Seq<char>)>,
    path: Seq<char>,
) -> Option<(Seq<char>, Seq<char>)>
    decreases rules.len(),
{
    if rules.len() == 0 {
        None
    } else {
        let best = longest_rule(rules.drop_last(), path);
        let rule = rules.last();
        if rule.0.is_prefix_of(path) && (best is None || (best->0).0.len() < rule.0.len()) {
            Some(rule)
        } else {
            best
        }
    }
}

/// The first rule whose prefix `path` has.
pub open spec fn first_rule(
    rules: Seq<(Seq<char>, Seq<char>)>,
    path: Seq<char>,
) -> Option<(Seq<char>, Seq<char>)>
    decreases rules.len(),
{
    if rules.len() == 0 {
        None
    } else if rules.first().0.is_prefix_of(path) {
        Some(rules.first())
    } else {
        first_rule(rules.drop_first(), path)
    }
}

/// How many bytes `text` takes.
pub open spec fn width(text: Seq<char>) -> nat {
    encode_utf8(text).len()
}

/// Where a rule with a prefix of `bytes` bytes belongs in `rules`: behind those
/// that come first and have prefixes at least as long.
pub open spec fn place(rules: Seq<(Seq<char>, Seq<char>)>, bytes: nat) -> int
    decreases rules.len(),
{
    if rules.len() == 0 || width(rules.first().0) < bytes {
        0
    } else {
        1 + place(rules.drop_first(), bytes)
    }
}

/// `rules` by the length of their prefixes, the longest first; of prefixes of
/// the same length, the one that is declared first comes first.
pub open spec fn by_length(rules: Seq<(Seq<char>, Seq<char>)>) -> Seq<(Seq<char>, Seq<char>)>
    decreases rules.len(),
{
    if rules.len() == 0 {
        rules
    } else {
        let earlier = by_length(rules.drop_last());
        earlier.insert(place(earlier, width(rules.last().0)), rules.last())
    }
}

/// No rule has a longer prefix than the ones before it.
pub open spec fn sorted(rules: Seq<(Seq<char>, Seq<char>)>) -> bool {
    forall|i: int, j: int|
        0 <= i < j < rules.len() ==> width((#[trigger] rules[i]).0) >= width(
            (#[trigger] rules[j]).0,
        )
}

/// What `list` gives for each key that it has, where a later pair overrides an
/// earlier one.
pub open spec fn last_values(list: Seq<(Seq<char>, Seq<char>)>) -> Map<Seq<char>, Seq<char>> {
    Map::new(
        |key: Seq<char>| value_of(list, key) is Some,
        |key: Seq<char>| value_of(list, key)->0,
    )
}

/// The tenant of a rule.
pub open spec fn tenant_of(rule: Option<(Seq<char>, Seq<char>)>) -> Option<Seq<char>> {
    match rule {
        Some(rule) => Some(rule.1),
        None => None,
    }
}

/// The tenant that `defs` gives a request with this `Host` header and path.
pub open spec fn routed(
    defs: Seq<WorkerDef>,
    host: Seq<char>,
    path: Seq<char>,
) -> Option<Seq<char>> {
    match value_of(host_rules(defs), before(host, ':')) {
        Some(tenant) => Some(tenant),
        None => tenant_of(longest_rule(path_rules(defs), path)),
    }
}

/// The routes of all tenants, ready for lookup.
#[derive(Debug)]
pub struct RouteTable {
    host_routes: Vec<(String, String)>,
    /// (prefix, tenant), the longest prefix first.
    path_routes: Vec<(String, String)>,
}

impl Default for RouteTable {
    fn default() -> (table: Self)
        ensures
            table.built_from(Seq::empty()),
    {
        let table = RouteTable { host_routes: Vec::new(), path_routes: Vec::new() };
        proof {
            assert(pairs(table.host_routes@) =~= host_rules(Seq::empty()));
            assert(pairs(table.path_routes@) =~= path_rules(Seq::empty()));
        }
        table
    }
}

impl RouteTable {
    /// The (prefix, tenant) pairs in the order in which they are tried.
    pub closed spec fn prefixes(&self) -> Seq<(Seq<char>, Seq<char>)> {
        pairs(self.path_routes@)
    }

    /// The tenants by their hosts.
    pub closed spec fn hosts(&self) -> Map<Seq<char>, Seq<char>> {
        last_values(pairs(self.host_routes@))
    }

    /// The tenant that owns `host`.
    pub closed spec fn host_tenant(&self, host: Seq<char>) -> Option<Seq<char>> {
        value_of(pairs(self.host_routes@), host)
    }

    /// The tenant that owns `path`.
    pub closed spec fn path_tenant(&self, path: Seq<char>) -> Option<Seq<char>> {
        tenant_of(first_rule(pairs(self.path_routes@), path))
    }

    /// The table holds the routes of `defs`: the last tenant that declares a
    /// host owns it, and the tenant that declares the longest prefix of a path,
    /// the first such one, owns that path. Every declared prefix is held once per
    /// declaration, the longest one first.
    pub open spec fn built_from(&self, defs: Seq<WorkerDef>) -> bool {
        &&& self.prefixes() == by_length(path_rules(defs))
        &&& self.hosts() == last_values(host_rules(defs))
        &&& forall|host: Seq<char>| #[trigger]
            self.host_tenant(host) == value_of(host_rules(defs), host)
        &&& forall|path: Seq<char>| #[trigger]
            self.path_tenant(path) == tenant_of(longest_rule(path_rules(defs), path))
    }

    /// The tenant for a request with this `Host` header and path.
    pub open spec fn resolution(&self, host: Seq<char>, path: Seq<char>) -> Option<Seq<char>> {
        match self.host_tenant(before(host, ':')) {
            Some(tenant) => Some(tenant),
            None => self.path_tenant(path),
        }
    }

    /// Collects the routes of `workers`.
    pub fn from_workers(workers: &[WorkerDef]) -> (table: Self)
        ensures
            table.built_from(workers@),
    {
        let mut host_routes: Vec<(String, String)> = Vec::new();
        let mut path_routes: Vec<(String, String)> = Vec::new();
        proof {
            assert(pairs(host_routes@) =~= host_rules(workers@.take(0)));
            assert(workers@.take(0) =~= Seq::<WorkerDef>::empty());
        }
        for i in 0..workers.len()
            invariant
                pairs(host_routes@) == host_rules(workers@.take(i as int)),
                pairs(path_routes@) == by_length(path_rules(workers@.take(i as int))),
        {
            let def = &workers[i];
            proof {
                assert(workers@.take(i + 1).drop_last() =~= workers@.take(i as int));
                assert(workers@.take(i + 1).last() == *def);
            }
            match &def.route.host {
                Some(host) => {
                    let ghost old_routes = host_routes@;
                    host_routes.push((host.clone(), def.name.clone()));
                    proof {
                        assert(pairs(host_routes@) =~= pairs(old_routes).push(
                            (host@, def.name@),
                        ));
                    }
                },
                None => {},
            }
            match &def.route.path {
                Some(path) => add_path_route(&mut path_routes, path.clone(), def.name.clone()),
                None => {},
            }
            proof {
                let rules = path_rules(workers@.take(i as int));
                let more = path_rules(workers@.take(i + 1));
                if def.route.path is Some {
                    assert(more.drop_last() =~= rules);
                }
            }
        }
        proof {
            assert(workers@.take(workers@.len() as int) =~= workers@);
            let rules = path_rules(workers@);
            assert forall|path: Seq<char>| #[trigger] first_rule(by_length(rules), path)
                == longest_rule(rules, path) by {
                lemma_by_length(rules, path);
            }
        }
        RouteTable { host_routes, path_routes }
    }

    /// The tenant for a request: the owner of `host`, which may carry a port,
    /// or else the owner of `path`.
    pub fn resolve(&self, host: &str, path: &str) -> (tenant: Option<&str>)
        ensures
            match tenant {
                Some(t) => self.resolution(host@, path@) == Some(t@),
                None => self.resolution(host@, path@) is None,
            },
    {
        let name = take_before(host, ':');
        match self.find_host(name.as_str()) {
            Some(tenant) => Some(tenant),
            None => self.find_path(path),
        }
    }

    fn find_host(&self, host: &str) -> (tenant: Option<&str>)
        ensures
            match tenant {
                Some(t) => self.host_tenant(host@) == Some(t@),
                None => self.host_tenant(host@) is None,
            },
    {
        let mut i: usize = self.host_routes.len();
        let ghost rules = pairs(self.host_routes@);
        proof {
            assert(rules.take(i as int) =~= rules);
        }
        while i > 0
            invariant
                rules == pairs(self.host_routes@),
                i <= self.host_routes@.len(),
                value_of(rules, host@) == value_of(rules.take(i as int), host@),
            decreases i,
        {
            i = i - 1;
            proof {
                assert(rules.take(i + 1).drop_last() =~= rules.take(i as int));
                assert(rules.take(i + 1).last() == rules[i as int]);
            }
            if same_text(self.host_routes[i].0.as_str(), host) {
                return Some(self.host_routes[i].1.as_str());
            }
        }
        None
    }

    fn find_path(&self, path: &str) -> (tenant: Option<&str>)
        ensures
            match tenant {
                Some(t) => self.path_tenant(path@) == Some(t@),
                None => self.path_tenant(path@) is None,
            },
    {
        let ghost rules = pairs(self.path_routes@);
        proof {
            assert(rules.skip(0) =~= rules);
        }
        for i in 0..self.path_routes.len()
            invariant
                rules == pairs(self.path_routes@),
                first_rule(rules, path@) == first_rule(rules.skip(i as int), path@),
        {
            proof {
                assert(rules.skip(i as int).drop_first() =~= rules.skip(i + 1));
                assert(rules.skip(i as int).first() == rules[i as int]);
            }
            if has_prefix(path, self.path_routes[i].0.as_str()) {
                return Some(self.path_routes[i].1.as_str());
            }
        }
        None
    }
}

/// Puts a rule behind all rules whose prefix is at least as long.
fn add_path_route(routes: &mut Vec<(String, String)>, prefix: String, tenant: String)
    ensures
        pairs(final(routes)@) == pairs(old(routes)@).insert(
            place(pairs(old(routes)@), width(prefix@)),
            (prefix@, tenant@),
        ),
{
    let length: usize = prefix.as_str().as_bytes().len();
    let ghost rules = pairs(routes@);
    let mut at: usize = 0;
    proof {
        assert(rules.skip(0) =~= rules);
    }
    while at < routes.len() && routes[at].0.as_str().as_bytes().len() >= length
        invariant
            *routes == *old(routes),
            rules == pairs(routes@),
            length == width(prefix@),
            at <= routes@.len(),
            place(rules, length as nat) == at + place(rules.skip(at as int), length as nat),
        decreases routes@.len() - at,
    {
        proof {
            assert(rules.skip(at as int).first() == rules[at as int]);
            assert(rules.skip(at as int).drop_first() =~= rules.skip(at + 1));
        }
        at = at + 1;
    }
    proof {
        if at < routes.len() {
            assert(rules.skip(at as int).first() == rules[at as int]);
        }
    }
    routes.insert(at, (prefix, tenant));
    proof {
        assert(pairs(routes@) =~= rules.insert(at as int, (prefix@, tenant@)));
    }
}

/// Where a rule belongs, in bounds: what stands before has a prefix at least as
/// long, and, in a sorted list, what stands behind has a shorter one.
proof fn lemma_place(rules: Seq<(Seq<char>, Seq<char>)>, bytes: nat)
    ensures
        0 <= place(rules, bytes) <= rules.len(),
        forall|j: int|
            0 <= j < place(rules, bytes) ==> width((#[trigger] rules[j]).0) >= bytes,
        sorted(rules) ==> forall|j: int|
            place(rules, bytes) <= j < rules.len() ==> width((#[trigger] rules[j]).0) < bytes,
    decreases rules.len(),
{
    if rules.len() > 0 {
        let rest = rules.drop_first();
        if width(rules.first().0) >= bytes {
            lemma_place(rest, bytes);
            assert forall|j: int| 0 <= j < place(rules, bytes) implies width(
                (#[trigger] rules[j]).0,
            ) >= bytes by {
                if j > 0 {
                    assert(rest[j - 1] == rules[j]);
                }
            }
            if sorted(rules) {
                lemma_sorted_rest(rules);
                assert forall|j: int| place(rules, bytes) <= j < rules.len() implies width(
                    (#[trigger] rules[j]).0,
                ) < bytes by {
                    assert(rest[j - 1] == rules[j]);
                }
            }
        } else if sorted(rules) {
            assert forall|j: int| 0 <= j < rules.len() implies width((#[trigger] rules[j]).0)
                < bytes by {
                assert(j > 0 ==> width(rules[0].0) >= width(rules[j].0));
            }
        }
    }
}

proof fn lemma_sorted_rest(rules: Seq<(Seq<char>, Seq<char>)>)
    requires
        sorted(rules),
        rules.len() > 0,
    ensures
        sorted(rules.drop_first()),
{
    let rest = rules.drop_first();
    assert forall|i: int, j: int| 0 <= i < j < rest.len() implies width((#[trigger] rest[i]).0)
        >= width((#[trigger] rest[j]).0) by {
        assert(rest[i] == rules[i + 1] && rest[j] == rules[j + 1]);
    }
}

/// The prefixes of a table stand in order of their length, the longest first,
/// and each is there once per declaration.
pub proof fn law_prefixes_are_ordered(rules: Seq<(Seq<char>, Seq<char>)>)
    ensures
        sorted(by_length(rules)),
        by_length(rules).to_multiset() == rules.to_multiset(),
        by_length(rules).len() == rules.len(),
    decreases rules.len(),
{
    broadcast use vstd::seq_lib::group_to_multiset_ensures;

    if rules.len() > 0 {
        let earlier = by_length(rules.drop_last());
        let rule = rules.last();
        law_prefixes_are_ordered(rules.drop_last());
        lemma_place(earlier, width(rule.0));
        let k = place(earlier, width(rule.0));
        let now = earlier.insert(k, rule);
        assert(now.remove(k) =~= earlier);
        assert(now[k] == rule);
        assert(now.contains(rule));
        assert(now.to_multiset().remove(rule) == earlier.to_multiset());
        assert(now.to_multiset() =~= earlier.to_multiset().insert(rule));
        assert(rules =~= rules.drop_last().push(rule));
        assert(rules.to_multiset() =~= rules.drop_last().to_multiset().insert(rule));
        assert forall|i: int, j: int| 0 <= i < j < now.len() implies width((#[trigger] now[i]).0)
            >= width((#[trigger] now[j]).0) by {
            let p = if i < k { i } else { i - 1 };
            let q = if j < k { j } else { j - 1 };
            if i != k && j != k {
                assert(now[i] == earlier[p] && now[j] == earlier[q]);
            } else if j == k {
                assert(now[i] == earlier[i]);
            } else {
                assert(now[j] == earlier[q]);
            }
        }
    }
}

/// Trying the longest prefix first finds the longest one that matches.
proof fn lemma_by_length(rules: Seq<(Seq<char>, Seq<char>)>, path: Seq<char>)
    ensures
        first_rule(by_length(rules), path) == longest_rule(rules, path),
        longest_rule(rules, path) is Some ==> (longest_rule(rules, path)->0).0.is_prefix_of(path),
    decreases rules.len(),
{
    if rules.len() > 0 {
        let earlier = by_length(rules.drop_last());
        let rule = rules.last();
        let k = place(earlier, width(rule.0));
        lemma_by_length(rules.drop_last(), path);
        law_prefixes_are_ordered(rules.drop_last());
        lemma_place(earlier, width(rule.0));
        lemma_first_rule_insert(earlier, k, rule, path);
        let best = longest_rule(rules.drop_last(), path);
        if best is Some && rule.0.is_prefix_of(path) {
            lemma_prefix_widths((best->0).0, rule.0, path);
        }
    }
}

/// Of two prefixes of one text, the one with more characters takes more bytes.
proof fn lemma_prefix_widths(a: Seq<char>, b: Seq<char>, text: Seq<char>)
    requires
        a.is_prefix_of(text),
        b.is_prefix_of(text),
    ensures
        width(a) < width(b) <==> a.len() < b.len(),
{
    if a.len() <= b.len() {
        assert(b =~= a + b.skip(a.len() as int));
        lemma_width_add(a, b.skip(a.len() as int));
    } else {
        assert(a =~= b + a.skip(b.len() as int));
        lemma_width_add(b, a.skip(b.len() as int));
    }
}

proof fn lemma_width_add(a: Seq<char>, b: Seq<char>)
    ensures
        width(a + b) == width(a) + width(b),
        b.len() > 0 ==> width(b) > 0,
    decreases a.len(),
{
    if a.len() == 0 {
        assert(a + b =~= b);
    } else {
        assert((a + b).drop_first() =~= a.drop_first() + b);
        lemma_width_add(a.drop_first(), b);
    }
}

/// How one more rule, put where the order wants it, changes the first match.
proof fn lemma_first_rule_insert(
    rules: Seq<(Seq<char>, Seq<char>)>,
    at: int,
    rule: (Seq<char>, Seq<char>),
    path: Seq<char>,
)
    requires
        0 <= at <= rules.len(),
        forall|j: int| 0 <= j < at ==> width((#[trigger] rules[j]).0) >= width(rule.0),
        forall|j: int| at <= j < rules.len() ==> width((#[trigger] rules[j]).0) < width(rule.0),
    ensures
        first_rule(rules.insert(at, rule), path) == ({
            let best = first_rule(rules, path);
            if rule.0.is_prefix_of(path) && (best is None || width((best->0).0) < width(rule.0)) {
                Some(rule)
            } else {
                best
            }
        }),
    decreases rules.len(),
{
    let now = rules.insert(at, rule);
    if at == 0 {
        assert(now.first() == rule);
        assert(now.drop_first() =~= rules);
        if first_rule(rules, path) is Some {
            let i = lemma_first_rule_is_there(rules, path);
        }
    } else {
        assert(now.first() == rules.first());
        let rest = rules.drop_first();
        assert(now.drop_first() =~= rest.insert(at - 1, rule));
        assert forall|j: int| 0 <= j < at - 1 implies width((#[trigger] rest[j]).0) >= width(
            rule.0,
        ) by {
            assert(rest[j] == rules[j + 1]);
        }
        assert forall|j: int| at - 1 <= j < rest.len() implies width((#[trigger] rest[j]).0)
            < width(rule.0) by {
            assert(rest[j] == rules[j + 1]);
        }
        lemma_first_rule_insert(rest, at - 1, rule, path);
    }
}

proof fn lemma_first_rule_is_there(
    rules: Seq<(Seq<char>, Seq<char>)>,
    path: Seq<char>,
) -> (i: int)
    requires
        first_rule(rules, path) is Some,
    ensures
        0 <= i < rules.len(),
        rules[i] == first_rule(rules, path)->0,
    decreases rules.len(),
{
    if rules.first().0.is_prefix_of(path) {
        0
    } else {
        let i = lemma_first_rule_is_there(rules.drop_first(), path);
        i + 1
    }
}

/// Whether the tenant `def` declares the host `host`.
pub open spec fn declares_host(def: WorkerDef, host: Seq<char>) -> bool {
    def.route.host is Some && def.route.host->0@ == host
}

/// Whether the tenant `def` declares a prefix of `path`.
pub open spec fn declares_prefix(def: WorkerDef, path: Seq<char>) -> bool {
    def.route.path is Some && def.route.path->0@.is_prefix_of(path)
}

/// The last tenant that declares a host gets its requests, whatever the path.
/// A port behind the host makes no difference. (A host that itself holds a
/// colon is cut at that colon, so it can never be asked for.)
pub proof fn law_host_wins(
    defs: Seq<WorkerDef>,
    i: int,
    host: Seq<char>,
    port: Seq<char>,
    path: Seq<char>,
)
    requires
        0 <= i < defs.len(),
        declares_host(defs[i], host),
        forall|j: int| i < j < defs.len() ==> !declares_host(#[trigger] defs[j], host),
        !host.contains(':'),
    ensures
        routed(defs, host, path) == Some(defs[i].name@),
        routed(defs, host + seq![':'] + port, path) == Some(defs[i].name@),
{
    lemma_no_split(host, ':');
    lemma_split_at_first(host, ':', port);
    lemma_host_rule(defs, i, host);
}

proof fn lemma_host_rule(defs: Seq<WorkerDef>, i: int, host: Seq<char>)
    requires
        0 <= i < defs.len(),
        declares_host(defs[i], host),
        forall|j: int| i < j < defs.len() ==> !declares_host(#[trigger] defs[j], host),
    ensures
        value_of(host_rules(defs), host) == Some(defs[i].name@),
    decreases defs.len(),
{
    let rest = defs.drop_last();
    let rules = host_rules(rest);
    let last = defs.len() - 1;
    if defs[last].route.host is Some {
        assert(host_rules(defs).drop_last() =~= rules);
    }
    if i < last {
        assert(!declares_host(defs[last], host));
        assert forall|j: int| i < j < rest.len() implies !declares_host(
            #[trigger] rest[j],
            host,
        ) by {
            assert(rest[j] == defs[j]);
        }
        lemma_host_rule(rest, i, host);
    }
}

/// Where no tenant declares the host, the path decides: the tenant that
/// declares the longest prefix of it gets the request, and of several with
/// that prefix the first one.
pub proof fn law_longest_prefix_wins(
    defs: Seq<WorkerDef>,
    i: int,
    host: Seq<char>,
    path: Seq<char>,
)
    requires
        0 <= i < defs.len(),
        forall|j: int|
            0 <= j < defs.len() ==> !declares_host(#[trigger] defs[j], before(host, ':')),
        declares_prefix(defs[i], path),
        forall|j: int|
            0 <= j < defs.len() && declares_prefix(#[trigger] defs[j], path)
                ==> defs[j].route.path->0@.len() <= defs[i].route.path->0@.len(),
        forall|j: int|
            0 <= j < i && declares_prefix(#[trigger] defs[j], path)
                ==> defs[j].route.path->0@.len() < defs[i].route.path->0@.len(),
    ensures
        routed(defs, host, path) == Some(defs[i].name@),
{
    lemma_no_host_rule(defs, before(host, ':'));
    lemma_longest_rule(defs, i, path);
}

proof fn lemma_longest_rule(defs: Seq<WorkerDef>, i: int, path: Seq<char>)
    requires
        0 <= i < defs.len(),
        declares_prefix(defs[i], path),
        forall|j: int|
            0 <= j < defs.len() && declares_prefix(#[trigger] defs[j], path)
                ==> defs[j].route.path->0@.len() <= defs[i].route.path->0@.len(),
        forall|j: int|
            0 <= j < i && declares_prefix(#[trigger] defs[j], path)
                ==> defs[j].route.path->0@.len() < defs[i].route.path->0@.len(),
    ensures
        longest_rule(path_rules(defs), path) == Some((defs[i].route.path->0@, defs[i].name@)),
    decreases defs.len(),
{
    let rest = defs.drop_last();
    let rules = path_rules(rest);
    let last = defs.len() - 1;
    if defs[last].route.path is Some {
        assert(path_rules(defs).drop_last() =~= rules);
    }
    if i < last {
        assert forall|j: int| 0 <= j < rest.len() && declares_prefix(
            #[trigger] rest[j],
            path,
        ) implies rest[j].route.path->0@.len() <= rest[i].route.path->0@.len() by {
            assert(rest[j] == defs[j]);
        }
        assert forall|j: int| 0 <= j < i && declares_prefix(
            #[trigger] rest[j],
            path,
        ) implies rest[j].route.path->0@.len() < rest[i].route.path->0@.len() by {
            assert(rest[j] == defs[j]);
        }
        lemma_longest_rule(rest, i, path);
        assert(declares_prefix(defs[last], path) ==> defs[last].route.path->0@.len()
            <= defs[i].route.path->0@.len());
    } else {
        let bound = defs[i].route.path->0@.len();
        assert forall|j: int| 0 <= j < rest.len() && declares_prefix(
            #[trigger] rest[j],
            path,
        ) implies rest[j].route.path->0@.len() < bound by {
            assert(rest[j] == defs[j]);
        }
        lemma_rules_shorter(rest, path, bound);
    }
}

proof fn lemma_rules_shorter(defs: Seq<WorkerDef>, path: Seq<char>, bound: nat)
    requires
        forall|j: int|
            0 <= j < defs.len() && declares_prefix(#[trigger] defs[j], path)
                ==> defs[j].route.path->0@.len() < bound,
    ensures
        longest_rule(path_rules(defs), path) is Some ==> (longest_rule(
            path_rules(defs),
            path,
        )->0).0.len() < bound,
    decreases defs.len(),
{
    if defs.len() > 0 {
        let rest = defs.drop_last();
        let last = defs.len() - 1;
        if defs[last].route.path is Some {
            assert(path_rules(defs).drop_last() =~= path_rules(rest));
        }
        assert forall|j: int| 0 <= j < rest.len() && declares_prefix(
            #[trigger] rest[j],
            path,
        ) implies rest[j].route.path->0@.len() < bound by {
            assert(rest[j] == defs[j]);
        }
        lemma_rules_shorter(rest, path, bound);
        assert(declares_prefix(defs[last], path) ==> defs[last].route.path->0@.len() < bound);
    }
}

proof fn lemma_no_host_rule(defs: Seq<WorkerDef>, host: Seq<char>)
    requires
        forall|j: int| 0 <= j < defs.len() ==> !declares_host(#[trigger] defs[j], host),
    ensures
        value_of(host_rules(defs), host) is None,
    decreases defs.len(),
{
    if defs.len() > 0 {
        let rest = defs.drop_last();
        let last = defs.len() - 1;
        if defs[last].route.host is Some {
            assert(host_rules(defs).drop_last() =~= host_rules(rest));
        }
        assert(!declares_host(defs[last], host));
        assert forall|j: int| 0 <= j < rest.len() implies !declares_host(
            #[trigger] rest[j],
            host,
        ) by {
            assert(rest[j] == defs[j]);
        }
        lemma_no_host_rule(rest, host);
    }
}

/// A request that no tenant declares a host or a prefix for goes to nobody.
pub proof fn law_unmatched_goes_nowhere(defs: Seq<WorkerDef>, host: Seq<char>, path: Seq<char>)
    requires
        forall|j: int|
            0 <= j < defs.len() ==> !declares_host(#[trigger] defs[j], before(host, ':')),
        forall|j: int| 0 <= j < defs.len() ==> !declares_prefix(#[trigger] defs[j], path),
    ensures
        routed(defs, host, path) is None,
{
    lemma_no_host_rule(defs, before(host, ':'));
    lemma_rules_shorter(defs, path, 0);
}

/// A table answers exactly as its tenants declare.
pub proof fn law_table_follows_declarations(
    table: RouteTable,
    defs: Seq<WorkerDef>,
    host: Seq<char>,
    path: Seq<char>,
)
    requires
        table.built_from(defs),
    ensures
        table.resolution(host, path) == routed(defs, host, path),
{
}

/// Requests are routed by a table as its tenants declare: see [`law_host_wins`],
/// [`law_longest_prefix_wins`] and [`law_unmatched_goes_nowhere`].
pub proof fn law_tables_route_as_declared(
    workers: &[WorkerDef],
    table: RouteTable,
    host: &str,
    path: &str,
    tenant: Option<&str>,
)
    requires
        call_ensures(RouteTable::from_workers, (workers,), table),
        call_ensures(RouteTable::resolve, (&table, host, path), tenant),
    ensures
        tenant is Some <==> routed(workers@, host@, path@) is Some,
        tenant is Some ==> routed(workers@, host@, path@) == Some(tenant->0@),
{
    law_table_follows_declarations(table, workers@, host@, path@);
}

/// The owner of a host gets its requests, with and without a port, whatever the
/// path is.
pub proof fn law_hosts_are_resolved(
    workers: &[WorkerDef],
    table: RouteTable,
    i: int,
    name: Seq<char>,
    port: Seq<char>,
    host: &str,
    path: &str,
    tenant: Option<&str>,
)
    requires
        call_ensures(RouteTable::from_workers, (workers,), table),
        call_ensures(RouteTable::resolve, (&table, host, path), tenant),
        0 <= i < workers@.len(),
        workers@[i].route.host is Some,
        workers@[i].route.host->0@ == name,
        forall|j: int|
            i < j < workers@.len() && (#[trigger] workers@[j]).route.host is Some
                ==> workers@[j].route.host->0@ != name,
        !name.contains(':'),
        host@ == name || host@ == name + seq![':'] + port,
    ensures
        tenant is Some,
        tenant->0@ == workers@[i].name@,
{
    law_tables_route_as_declared(workers, table, host, path, tenant);
    assert forall|j: int| i < j < workers@.len() implies !declares_host(
        #[trigger] workers@[j],
        name,
    ) by {}
    law_host_wins(workers@, i, name, port, path@);
}

/// Where nobody owns the host, the first tenant with the longest prefix of the
/// path gets the request, and nobody gets it where no prefix matches.
pub proof fn law_paths_are_resolved(
    workers: &[WorkerDef],
    table: RouteTable,
    i: int,
    host: &str,
    path: &str,
    tenant: Option<&str>,
    name: String,
)
    requires
        call_ensures(RouteTable::from_workers, (workers,), table),
        call_ensures(RouteTable::resolve, (&table, host, path), tenant),
        call_ensures(take_before, (host, ':'), name),
        forall|j: int|
            0 <= j < workers@.len() && (#[trigger] workers@[j]).route.host is Some
                ==> workers@[j].route.host->0@ != name@,
        -1 <= i < workers@.len(),
        i >= 0 ==> workers@[i].route.path is Some && workers@[i].route.path->0@.is_prefix_of(path@),
        forall|j: int|
            0 <= j < workers@.len() && (#[trigger] workers@[j]).route.path is Some
                && workers@[j].route.path->0@.is_prefix_of(path@) ==> i >= 0
                && workers@[j].route.path->0@.len() <= workers@[i].route.path->0@.len() && (j < i
                ==> workers@[j].route.path->0@.len() < workers@[i].route.path->0@.len()),
    ensures
        tenant is Some <==> i >= 0,
        tenant is Some ==> tenant->0@ == workers@[i].name@,
{
    law_tables_route_as_declared(workers, table, host, path, tenant);
    let defs = workers@;
    assert forall|j: int| 0 <= j < defs.len() implies !declares_host(
        #[trigger] defs[j],
        before(host@, ':'),
    ) by {}
    if i >= 0 {
        law_longest_prefix_wins(defs, i, host@, path@);
    } else {
        assert forall|j: int| 0 <= j < defs.len() implies !declares_prefix(
            #[trigger] defs[j],
            path@,
        ) by {}
        law_unmatched_goes_nowhere(defs, host@, path@);
    }
}

/// What a configuration says holds, and what it leaves out has its default.
pub proof fn law_configurations_are_completed(written: WrittenConfig, config: Config)
    requires
        call_ensures(Config::with_defaults, (written,), config),
    ensures
        written.listen is Some ==> config.server.listen@ == written.listen->0@,
        written.listen is None ==> config.server.listen@ == "127.0.0.1:8787"@,
        written.worker_threads is Some ==> config.server.worker_threads
            == written.worker_threads->0,
        written.worker_threads is None ==> config.server.worker_threads == 4,
        written.cpu_ms is Some ==> config.limits.cpu_ms == written.cpu_ms->0,
        written.cpu_ms is None ==> config.limits.cpu_ms == 50,
        written.heap_mb is Some ==> config.limits.heap_mb == written.heap_mb->0,
        written.heap_mb is None ==> config.limits.heap_mb == 64,
        written.isolates_max is Some ==> config.limits.isolates_max == written.isolates_max->0,
        written.isolates_max is None ==> config.limits.isolates_max == 16,
        written.wall_timeout_ms is Some ==> config.limits.wall_timeout_ms
            == written.wall_timeout_ms->0,
        written.wall_timeout_ms is None ==> config.limits.wall_timeout_ms == 10_000,
        config.workers == written.workers,
{
}

/// What is not configured has its default.
pub proof fn law_limits_have_defaults(limits: Limits, listen: String, threads: usize)
    requires
        call_ensures(<Limits as Default>::default, (), limits),
        call_ensures(default_listen, (), listen),
        call_ensures(default_worker_threads, (), threads),
    ensures
        limits.cpu_ms == 50,
        limits.heap_mb == 64,
        limits.isolates_max == 16,
        limits.wall_timeout_ms == 10_000,
        listen@ == "127.0.0.1:8787"@,
        threads == 4,
{
}

/// A table without routes sends nothing anywhere.
pub proof fn law_empty_tables_route_nothing(
    table: RouteTable,
    host: &str,
    path: &str,
    tenant: Option<&str>,
)
    requires
        call_ensures(<RouteTable as Default>::default, (), table),
        call_ensures(RouteTable::resolve, (&table, host, path), tenant),
    ensures
        tenant is None,
{
    law_table_follows_declarations(table, Seq::empty(), host@, path@);
    law_unmatched_goes_nowhere(Seq::empty(), host@, path@);
}

} // verus!
