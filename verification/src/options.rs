//! What the command line and the configuration ask for.

use vstd::prelude::*;
use vstd::utf8::encode_utf8;

use crate::env::{lemma_last_value, Env, value_of};
use crate::ops::op_decode_utf8;
use crate::protocol::{RequestView, WorkerRequest, WorkerResponse};
use crate::router::{declares_host, default_listen, host_rules, law_longest_prefix_wins,
    law_table_follows_declarations, longest_rule, path_rules, routed, Config, Limits, Route,
    RouteTable, WorkerDef};
use crate::server::{spec_of, ServeOptions, TenantSpec, Tenants};
use crate::text::{before, decimal, decimal_text, has_prefix, lemma_split_at_first, lossy_text,
    pairs, split_at_first, split_once, text_bytes, text_from_bytes, trim, trimmed};

verus! {

/// `texts[i]` is the first text without a `c`.
pub open spec fn first_without(texts: Seq<String>, c: char, i: int) -> bool {
    &&& 0 <= i < texts.len()
    &&& split_at_first(texts[i]@, c) is None
    &&& forall|j: int| 0 <= j < i ==> split_at_first((#[trigger] texts[j])@, c) is Some
}

/// `parts` are the texts, each cut at its first `c`.
pub open spec fn all_cut(
    texts: Seq<String>,
    c: char,
    parts: Seq<(Seq<char>, Seq<char>)>,
) -> bool {
    &&& parts.len() == texts.len()
    &&& forall|i: int|
        0 <= i < texts.len() ==> split_at_first((#[trigger] texts[i])@, c) == Some(parts[i])
}

/// The names and values of `KEY=VALUE` texts, cut at the first `=`. A text
/// without one is an error, and the first such text is named.
pub fn parse_env(env: &[String]) -> (parsed: Result<Vec<(String, String)>, String>)
    ensures
        match parsed {
            Ok(list) => all_cut(env@, '=', pairs(list@)),
            Err(message) => exists|i: int| #[trigger]
                first_without(env@, '=', i) && message@
                    == "invalid --env (expected KEY=VALUE): "@ + env@[i]@,
        },
{
    let mut list: Vec<(String, String)> = Vec::new();
    for i in 0..env.len()
        invariant
            list@.len() == i,
            forall|j: int|
                0 <= j < i ==> split_at_first((#[trigger] env@[j])@, '=') == Some(
                    pairs(list@)[j],
                ),
    {
        let ghost before = pairs(list@);
        match split_once(env[i].as_str(), '=') {
            Some(pair) => {
                list.push(pair);
                proof {
                    assert(pairs(list@) =~= before.push((pair.0@, pair.1@)));
                }
            },
            None => {
                let message = "invalid --env (expected KEY=VALUE): ".to_owned().concat(
                    env[i].as_str(),
                );
                proof {
                    assert(first_without(env@, '=', i as int));
                }
                return Err(message);
            },
        }
    }
    Ok(list)
}

/// `headers` are the texts, each cut at its first colon and trimmed.
pub open spec fn all_headers(texts: Seq<String>, headers: Seq<(Seq<char>, Seq<char>)>) -> bool {
    &&& headers.len() == texts.len()
    &&& forall|i: int|
        0 <= i < texts.len() ==> {
            let cut = split_at_first((#[trigger] texts[i])@, ':');
            cut is Some && headers[i] == (trimmed((cut->0).0), trimmed((cut->0).1))
        }
}

/// The names and values of `key: value` texts, cut at the first colon and
/// trimmed. A text without one is an error, and the first such text is named.
pub fn parse_headers(texts: &[String]) -> (parsed: Result<Vec<(String, String)>, String>)
    ensures
        match parsed {
            Ok(list) => all_headers(texts@, pairs(list@)),
            Err(message) => exists|i: int| #[trigger]
                first_without(texts@, ':', i) && message@
                    == "invalid --header (expected 'key: value'): "@ + texts@[i]@,
        },
{
    let mut list: Vec<(String, String)> = Vec::new();
    for i in 0..texts.len()
        invariant
            list@.len() == i,
            forall|j: int|
                0 <= j < i ==> {
                    let cut = split_at_first((#[trigger] texts@[j])@, ':');
                    cut is Some && pairs(list@)[j] == (
                        trimmed((cut->0).0),
                        trimmed((cut->0).1),
                    )
                },
    {
        let ghost before = pairs(list@);
        match split_once(texts[i].as_str(), ':') {
            Some((key, value)) => {
                let header = (trim(key.as_str()), trim(value.as_str()));
                list.push(header);
                proof {
                    assert(pairs(list@) =~= before.push((header.0@, header.1@)));
                }
            },
            None => {
                let message = "invalid --header (expected 'key: value'): ".to_owned().concat(
                    texts[i].as_str(),
                );
                proof {
                    assert(first_without(texts@, ':', i as int));
                }
                return Err(message);
            },
        }
    }
    Ok(list)
}

/// The URL that is asked for: a mere path is one of this host.
pub open spec fn absolute(url: Seq<char>) -> Seq<char> {
    if "/"@.is_prefix_of(url) {
        "http://localhost"@ + url
    } else {
        url
    }
}

/// What the standard library's `str::to_uppercase` makes of `text`.
pub uninterp spec fn uppercase(text: Seq<char>) -> Seq<char>;

/// The standard library's `str::to_uppercase`, whose result depends on the
/// text alone.
#[verifier::external_body]
fn to_uppercase(text: &str) -> (upper: String)
    ensures
        upper@ == uppercase(text@),
{
    text.to_uppercase()
}

/// The request with this method, as it stands.
pub fn request_with_method(
    method: String,
    url: String,
    body: Option<String>,
    headers: Vec<(String, String)>,
) -> (request: WorkerRequest)
    ensures
        request@ == (RequestView {
            method: method@,
            url: absolute(url@),
            headers: pairs(headers@),
            body: match body {
                Some(body) => encode_utf8(body@),
                None => Seq::empty(),
            },
        }),
{
    let url = if has_prefix(url.as_str(), "/") {
        "http://localhost".to_owned().concat(url.as_str())
    } else {
        url
    };
    let body = match body {
        Some(body) => text_bytes(body.as_str()),
        None => Vec::new(),
    };
    WorkerRequest { method, url, headers, body }
}

/// The request that a single invocation makes; the method is put in upper case.
pub fn invocation(
    method: String,
    url: String,
    body: Option<String>,
    headers: Vec<(String, String)>,
) -> (request: WorkerRequest)
    ensures
        request@ == (RequestView {
            method: uppercase(method@),
            url: absolute(url@),
            headers: pairs(headers@),
            body: match body {
                Some(body) => encode_utf8(body@),
                None => Seq::empty(),
            },
        }),
{
    request_with_method(to_uppercase(method.as_str()), url, body, headers)
}

/// The lines `key: value` of `headers`, each with its line end.
pub open spec fn header_lines(headers: Seq<(Seq<char>, Seq<char>)>) -> Seq<char>
    decreases headers.len(),
{
    if headers.len() == 0 {
        Seq::empty()
    } else {
        header_lines(headers.drop_last()) + headers.last().0 + ": "@ + headers.last().1 + "\n"@
    }
}

/// A response as it is shown on the terminal.
pub open spec fn shown(
    status: u16,
    headers: Seq<(Seq<char>, Seq<char>)>,
    body: Seq<char>,
) -> Seq<char> {
    "HTTP "@ + decimal(status as nat) + "\n"@ + header_lines(headers) + "\n"@ + body + "\n"@
}

/// Writes a response for the terminal: the status, the headers, an empty line
/// and the body.
pub fn show_response(response: &WorkerResponse) -> (text: String)
    ensures
        text@ == shown(response@.status, response@.headers, lossy_text(response@.body)),
{
    show_parts(response, text_from_bytes(response.body.as_slice()).as_str())
}

/// Writes a response for the terminal with this text for its body.
pub fn show_parts(response: &WorkerResponse, body: &str) -> (text: String)
    ensures
        text@ == shown(response@.status, response@.headers, body@),
{
    let mut lines = String::new();
    let ghost all = pairs(response.headers@);
    proof {
        assert(all.take(0) =~= Seq::<(Seq<char>, Seq<char>)>::empty());
    }
    for i in 0..response.headers.len()
        invariant
            all == pairs(response.headers@),
            lines@ == header_lines(all.take(i as int)),
    {
        let (key, value) = &response.headers[i];
        lines = lines.concat(key.as_str()).concat(": ").concat(value.as_str()).concat("\n");
        proof {
            assert(all.take(i + 1).drop_last() =~= all.take(i as int));
            assert(all.take(i + 1).last() == (key@, value@));
        }
    }
    proof {
        assert(all.take(all.len() as int) =~= all);
    }
    let status = decimal_text(response.status);
    "HTTP ".to_owned().concat(status.as_str()).concat("\n").concat(lines.as_str()).concat(
        "\n",
    ).concat(body).concat("\n")
}

/// What a server is to run, before any script is read.
#[derive(Debug)]
pub struct ServePlan {
    pub listen: String,
    pub worker_threads: usize,
    pub limits: Limits,
    pub workers: Vec<WorkerDef>,
}

/// Whether `plan` runs the single script `script` with these variables: one
/// tenant, `default`, gets all paths; one thread; all else is default.
pub open spec fn single(
    plan: ServePlan,
    script: std::path::PathBuf,
    env: Seq<(Seq<char>, Seq<char>)>,
) -> bool {
    &&& plan.listen@ == "127.0.0.1:8787"@
    &&& plan.worker_threads == 1
    &&& plan.limits == Limits {
        cpu_ms: 50,
        heap_mb: 64,
        isolates_max: 16,
        wall_timeout_ms: 10_000,
    }
    &&& plan.workers@.len() == 1
    &&& plan.workers@[0].name@ == "default"@
    &&& plan.workers@[0].script == script
    &&& plan.workers@[0].route.host is None
    &&& plan.workers@[0].route.path is Some
    &&& plan.workers@[0].route.path->0@ == "/"@
    &&& plan.workers@[0].env.wf()
    &&& forall|key: Seq<char>| #[trigger]
        value_of(plan.workers@[0].env@, key) == value_of(env, key)
}

/// The plan to run a single script with `KEY=VALUE` variables.
pub fn plan_script(script: std::path::PathBuf, env: &[String]) -> (plan: Result<ServePlan, String>)
    ensures
        match plan {
            Ok(plan) => exists|parts: Seq<(Seq<char>, Seq<char>)>| #[trigger]
                all_cut(env@, '=', parts) && single(plan, script, parts),
            Err(message) => exists|i: int| #[trigger]
                first_without(env@, '=', i) && message@
                    == "invalid --env (expected KEY=VALUE): "@ + env@[i]@,
        },
{
    let list = match parse_env(env) {
        Ok(list) => list,
        Err(message) => return Err(message),
    };
    let ghost parts = pairs(list@);
    let mut workers: Vec<WorkerDef> = Vec::new();
    workers.push(
        WorkerDef {
            name: "default".to_owned(),
            script,
            route: Route { host: None, path: Some("/".to_owned()) },
            env: Env::from_pairs(list),
        },
    );
    let plan = ServePlan {
        listen: default_listen(),
        worker_threads: 1,
        limits: Limits::default(),
        workers,
    };
    proof {
        assert(all_cut(env@, '=', parts) && single(plan, script, parts));
    }
    Ok(plan)
}

/// The plan to run what a configuration says.
pub fn plan_config(config: Config) -> (plan: ServePlan)
    ensures
        plan.listen == config.server.listen,
        plan.worker_threads == config.server.worker_threads,
        plan.limits == config.limits,
        plan.workers == config.workers,
{
    ServePlan {
        listen: config.server.listen,
        worker_threads: config.server.worker_threads,
        limits: config.limits,
        workers: config.workers,
    }
}

/// The tenant `def` with its script where it is found. A relative path is
/// relative to the configuration: `joined` is where it leads from there.
pub fn located(def: WorkerDef, relative: bool, joined: std::path::PathBuf) -> (found: WorkerDef)
    ensures
        found == (WorkerDef { script: if relative { joined } else { def.script }, ..def }),
{
    WorkerDef { script: if relative { joined } else { def.script }, ..def }
}

/// The limit of a heap of `heap_mb` MiB can be told in bytes.
pub open spec fn heap_fits(limits: Limits) -> bool {
    limits.heap_mb * 1024 * 1024 <= usize::MAX
}

/// Whether the limit of the heap can be told in bytes.
pub fn heap_limit_fits(limits: &Limits) -> (fits: bool)
    ensures
        fits == heap_fits(*limits),
{
    limits.heap_mb <= usize::MAX / 1_048_576
}

/// What a worker of the tenant `def` is made of, with its script read.
pub fn tenant_spec(
    def: &WorkerDef,
    limits: &Limits,
    script_source: String,
    script_url: String,
) -> (spec: TenantSpec)
    requires
        heap_fits(*limits),
    ensures
        spec.script_source == script_source,
        spec.script_url == script_url,
        pairs(spec.env@) == def.env@,
        spec.wall_timeout == limits.wall_timeout_ms * 1_000_000,
        spec.cpu_budget is Some,
        spec.cpu_budget->0 == limits.cpu_ms * 1_000_000,
        spec.heap_limit is Some,
        spec.heap_limit->0 == limits.heap_mb * 1024 * 1024,
{
    TenantSpec {
        script_source,
        script_url,
        env: def.env.to_pairs(),
        wall_timeout: limits.wall_timeout_ms as u128 * 1_000_000,
        cpu_budget: Some(limits.cpu_ms as u128 * 1_000_000),
        heap_limit: Some(limits.heap_mb * 1_048_576),
    }
}

/// How many warm workers each of `threads` threads keeps: its share of
/// `isolates_max`, but at least one.
pub open spec fn share(isolates_max: usize, threads: usize) -> int {
    let each = isolates_max as int / at_least_one(threads);
    if each < 1 {
        1
    } else {
        each
    }
}

/// `n`, but at least one.
pub open spec fn at_least_one(n: usize) -> int {
    if n == 0 {
        1
    } else {
        n as int
    }
}

/// How many worker threads are run for a configured number: at least one.
pub fn thread_count(configured: usize) -> (threads: usize)
    ensures
        threads == at_least_one(configured),
{
    if configured == 0 {
        1
    } else {
        configured
    }
}

/// The address to listen on: the one that was asked for; failing that, the
/// configured one, given as text and as it was read, if it could be.
pub fn listen_address<A>(asked: Option<A>, configured: &str, read: Option<A>) -> (listen: Result<
    A,
    String,
>)
    ensures
        match asked {
            Some(address) => listen == Ok::<A, String>(address),
            None => match read {
                Some(address) => listen == Ok::<A, String>(address),
                None => listen is Err && listen->Err_0@ == "invalid listen address: "@
                    + configured@,
            },
        },
{
    match asked {
        Some(address) => Ok(address),
        None => match read {
            Some(address) => Ok(address),
            None => Err("invalid listen address: ".to_owned().concat(configured)),
        },
    }
}

/// How to run what was planned, once all scripts are read: `specs` belongs to
/// `plan.workers`, in that order.
pub fn build_serve_options<A>(plan: ServePlan, specs: Vec<TenantSpec>, listen: A) -> (
    options: ServeOptions<A>)
    requires
        specs@.len() == plan.workers@.len(),
    ensures
        options.listen == listen,
        options.worker_threads == plan.worker_threads,
        options.isolates_per_thread == share(plan.limits.isolates_max, plan.worker_threads),
        options.route_table.built_from(plan.workers@),
        forall|name: Seq<char>| #[trigger]
            options.tenants.spec(name) == planned_spec(plan.workers@, specs@, name),
{
    let threads: usize = thread_count(plan.worker_threads);
    let each: usize = plan.limits.isolates_max / threads;
    let isolates_per_thread: usize = if each < 1 { 1 } else { each };
    let route_table = RouteTable::from_workers(plan.workers.as_slice());
    let ghost all = specs@;
    let mut list: Vec<(String, TenantSpec)> = Vec::new();
    for spec in it: specs
        invariant
            it.seq() == all,
            all.len() == plan.workers@.len(),
            list@.len() == it.index(),
            forall|i: int|
                0 <= i < list@.len() ==> (#[trigger] list@[i]).0@ == plan.workers@[i].name@
                    && list@[i].1 == all[i],
    {
        let i: usize = list.len();
        list.push((plan.workers[i].name.clone(), spec));
    }
    proof {
        assert forall|name: Seq<char>| #[trigger] spec_of(list@, name) == planned_spec(
            plan.workers@,
            all,
            name,
        ) by {
            lemma_planned_spec(plan.workers@, all, list@, name);
        }
    }
    ServeOptions {
        listen,
        worker_threads: plan.worker_threads,
        isolates_per_thread,
        route_table,
        tenants: Tenants::from_list(list),
    }
}

/// What is planned for the tenant `name`: of several with that name, the last counts.
pub open spec fn planned_spec(
    defs: Seq<WorkerDef>,
    specs: Seq<TenantSpec>,
    name: Seq<char>,
) -> Option<TenantSpec>
    decreases defs.len(),
{
    if defs.len() == 0 || specs.len() == 0 {
        None
    } else if defs.last().name@ == name {
        Some(specs.last())
    } else {
        planned_spec(defs.drop_last(), specs.drop_last(), name)
    }
}

proof fn lemma_planned_spec(
    defs: Seq<WorkerDef>,
    specs: Seq<TenantSpec>,
    list: Seq<(String, TenantSpec)>,
    name: Seq<char>,
)
    requires
        defs.len() == specs.len() == list.len(),
        forall|i: int|
            0 <= i < list.len() ==> (#[trigger] list[i]).0@ == defs[i].name@ && list[i].1
                == specs[i],
    ensures
        spec_of(list, name) == planned_spec(defs, specs, name),
    decreases list.len(),
{
    if list.len() > 0 {
        let rest = list.drop_last();
        assert(list[list.len() - 1].0@ == defs.last().name@);
        assert forall|i: int| 0 <= i < rest.len() implies (#[trigger] rest[i]).0@
            == defs.drop_last()[i].name@ && rest[i].1 == specs.drop_last()[i] by {
            assert(rest[i] == list[i]);
        }
        lemma_planned_spec(defs.drop_last(), specs.drop_last(), rest, name);
    }
}

/// All threads together keep no more warm workers than are allowed, if at least
/// one per thread is.
pub proof fn law_isolates_are_shared(isolates_max: usize, threads: usize)
    requires
        at_least_one(threads) <= isolates_max,
    ensures
        1 <= share(isolates_max, threads),
        share(isolates_max, threads) * at_least_one(threads) <= isolates_max,
{
    let n = at_least_one(threads);
    let m = isolates_max as int;
    vstd::arithmetic::div_mod::lemma_fundamental_div_mod(m, n);
    assert(m / n >= 1) by {
        vstd::arithmetic::div_mod::lemma_div_is_ordered(n, m, n);
        vstd::arithmetic::div_mod::lemma_div_by_self(n);
    }
    assert((m / n) * n == n * (m / n)) by (nonlinear_arith);
}

/// A single script gets every request, whatever the host is.
pub proof fn law_single_script_gets_everything(
    plan: ServePlan,
    script: std::path::PathBuf,
    env: Seq<(Seq<char>, Seq<char>)>,
    host: Seq<char>,
    path: Seq<char>,
)
    requires
        single(plan, script, env),
        "/"@.is_prefix_of(path),
    ensures
        routed(plan.workers@, host, path) == Some("default"@),
{
    law_longest_prefix_wins(plan.workers@, 0, host, path);
}

/// Whoever a request is routed to is known: with the tenants and routes of one
/// plan, no routed request ends in an unknown tenant.
pub proof fn law_routed_tenant_is_known(
    defs: Seq<WorkerDef>,
    specs: Seq<TenantSpec>,
    host: Seq<char>,
    path: Seq<char>,
)
    requires
        defs.len() == specs.len(),
        routed(defs, host, path) is Some,
    ensures
        planned_spec(defs, specs, routed(defs, host, path)->0) is Some,
{
    let tenant = routed(defs, host, path)->0;
    let name = before(host, ':');
    if value_of(host_rules(defs), name) is Some {
        let i = lemma_host_declared(defs, name);
        lemma_planned(defs, specs, i);
    } else {
        let i = lemma_path_declared(defs, path);
        lemma_planned(defs, specs, i);
    }
}

proof fn lemma_host_declared(defs: Seq<WorkerDef>, host: Seq<char>) -> (i: int)
    requires
        value_of(host_rules(defs), host) is Some,
    ensures
        0 <= i < defs.len(),
        defs[i].name@ == value_of(host_rules(defs), host)->0,
    decreases defs.len(),
{
    let rest = defs.drop_last();
    let last = defs.len() - 1;
    if defs[last].route.host is Some {
        assert(host_rules(defs).drop_last() =~= host_rules(rest));
    }
    if declares_host(defs[last], host) {
        last
    } else {
        lemma_host_declared(rest, host)
    }
}

proof fn lemma_path_declared(defs: Seq<WorkerDef>, path: Seq<char>) -> (i: int)
    requires
        longest_rule(path_rules(defs), path) is Some,
    ensures
        0 <= i < defs.len(),
        defs[i].name@ == (longest_rule(path_rules(defs), path)->0).1,
    decreases defs.len(),
{
    let rest = defs.drop_last();
    let last = defs.len() - 1;
    if defs[last].route.path is Some {
        assert(path_rules(defs).drop_last() =~= path_rules(rest));
    }
    if longest_rule(path_rules(rest), path) == longest_rule(path_rules(defs), path) {
        lemma_path_declared(rest, path)
    } else {
        last
    }
}

proof fn lemma_planned(defs: Seq<WorkerDef>, specs: Seq<TenantSpec>, i: int)
    requires
        defs.len() == specs.len(),
        0 <= i < defs.len(),
    ensures
        planned_spec(defs, specs, defs[i].name@) is Some,
    decreases defs.len(),
{
    if defs.last().name@ != defs[i].name@ {
        lemma_planned(defs.drop_last(), specs.drop_last(), i);
    }
}

/// Variables are read as they are written: each text is a name, the first equals
/// sign and a value. The first text without an equals sign is named.
pub proof fn law_variables_are_read(
    env: &[String],
    parsed: Result<Vec<(String, String)>, String>,
)
    requires
        call_ensures(parse_env, (env,), parsed),
    ensures
        parsed is Ok <==> forall|i: int|
            0 <= i < env@.len() ==> (#[trigger] env@[i])@.contains('='),
        parsed is Ok ==> parsed->Ok_0@.len() == env@.len(),
        parsed is Ok ==> forall|i: int|
            0 <= i < env@.len() ==> {
                let (name, value) = #[trigger] parsed->Ok_0@[i];
                !name@.contains('=') && name@ + seq!['='] + value@ == env@[i]@
            },
        parsed is Err ==> exists|i: int|
            {
                &&& 0 <= i < env@.len()
                &&& !(#[trigger] env@[i])@.contains('=')
                &&& forall|j: int| 0 <= j < i ==> (#[trigger] env@[j])@.contains('=')
                &&& parsed->Err_0@ == "invalid --env (expected KEY=VALUE): "@ + env@[i]@
            },
{
    assert forall|i: int| 0 <= i < env@.len() implies (split_at_first(
        (#[trigger] env@[i])@,
        '=',
    ) is Some <==> env@[i]@.contains('=')) by {
        lemma_cut(env@[i]@, '=');
    }
    match parsed {
        Ok(list) => {
            assert(pairs(list@).len() == list@.len());
            assert forall|i: int| 0 <= i < env@.len() implies {
                let (name, value) = #[trigger] list@[i];
                !name@.contains('=') && name@ + seq!['='] + value@ == env@[i]@
            } by {
                assert(pairs(list@)[i] == (list@[i].0@, list@[i].1@));
                lemma_cut(env@[i]@, '=');
            }
            assert forall|i: int| 0 <= i < env@.len() implies (#[trigger] env@[i])@.contains(
                '=',
            ) by {}
        },
        Err(message) => {
            let i = choose|i: int| #[trigger]
                first_without(env@, '=', i) && message@ == "invalid --env (expected KEY=VALUE): "@
                    + env@[i]@;
            assert(!env@[i]@.contains('='));
        },
    }
}

proof fn lemma_cut(s: Seq<char>, c: char)
    ensures
        split_at_first(s, c) is Some <==> s.contains(c),
        split_at_first(s, c) is Some ==> {
            let (head, tail) = split_at_first(s, c)->0;
            !head.contains(c) && head + seq![c] + tail == s
        },
{
    s.index_of_first_ensures(c);
    if s.contains(c) {
        let i = s.index_of_first(c)->0;
        let (head, tail) = split_at_first(s, c)->0;
        assert(head + seq![c] + tail =~= s);
        assert forall|j: int| 0 <= j < head.len() implies head[j] != c by {
            assert(s[j] != c);
        }
    }
}

/// Headers are read as they are written: each text is a name, the first colon and
/// a value, and the white space round both is dropped. The first text without a
/// colon is named.
pub proof fn law_headers_are_read(
    texts: &[String],
    parsed: Result<Vec<(String, String)>, String>,
    i: int,
    key: Seq<char>,
    value: Seq<char>,
)
    requires
        call_ensures(parse_headers, (texts,), parsed),
        0 <= i < texts@.len(),
        !key.contains(':'),
        texts@[i]@ == key + seq![':'] + value,
    ensures
        parsed is Ok <==> forall|j: int|
            0 <= j < texts@.len() ==> (#[trigger] texts@[j])@.contains(':'),
        parsed is Ok ==> parsed->Ok_0@.len() == texts@.len(),
        parsed is Ok ==> parsed->Ok_0@[i].0@ == trimmed(key),
        parsed is Ok ==> parsed->Ok_0@[i].1@ == trimmed(value),
        parsed is Err ==> exists|k: int|
            {
                &&& 0 <= k < texts@.len()
                &&& !(#[trigger] texts@[k])@.contains(':')
                &&& forall|j: int| 0 <= j < k ==> (#[trigger] texts@[j])@.contains(':')
                &&& parsed->Err_0@ == "invalid --header (expected 'key: value'): "@ + texts@[k]@
            },
{
    assert forall|j: int| 0 <= j < texts@.len() implies (split_at_first(
        (#[trigger] texts@[j])@,
        ':',
    ) is Some <==> texts@[j]@.contains(':')) by {
        lemma_cut(texts@[j]@, ':');
    }
    lemma_split_at_first(key, ':', value);
    match parsed {
        Ok(list) => {
            assert(pairs(list@).len() == list@.len());
            assert(pairs(list@)[i] == (list@[i].0@, list@[i].1@));
            assert(split_at_first(texts@[i]@, ':') is Some);
            assert forall|j: int| 0 <= j < texts@.len() implies (#[trigger] texts@[j])@.contains(
                ':',
            ) by {}
        },
        Err(message) => {
            let k = choose|k: int| #[trigger]
                first_without(texts@, ':', k) && message@
                    == "invalid --header (expected 'key: value'): "@ + texts@[k]@;
            assert(!texts@[k]@.contains(':'));
        },
    }
}

/// A request is made as it is asked for: a path is one of this host, and anything
/// else is a URL as it stands; the headers and the body are those that were given.
pub proof fn law_requests_are_made_as_asked(
    method: String,
    url: String,
    body: Option<String>,
    headers: Vec<(String, String)>,
    request: WorkerRequest,
)
    requires
        call_ensures(request_with_method, (method, url, body, headers), request),
    ensures
        request.method@ == method@,
        url@.len() > 0 && url@[0] == '/' ==> request.url@ == "http://localhost"@ + url@,
        url@.len() == 0 || url@[0] != '/' ==> request.url@ == url@,
        pairs(request.headers@) == pairs(headers@),
        body is Some ==> request.body@ == encode_utf8(body->0@),
        body is None ==> request.body@.len() == 0,
{
    lemma_slash(url@);
    assert(request@.method == request.method@);
    assert(request@.url == request.url@);
    assert(request@.headers == pairs(request.headers@));
    assert(request@.body == request.body@);
}

proof fn lemma_slash(url: Seq<char>)
    ensures
        "/"@.is_prefix_of(url) <==> url.len() > 0 && url[0] == '/',
{
    reveal_strlit("/");
    if url.len() > 0 && url[0] == '/' {
        assert(url.subrange(0, 1) =~= "/"@);
    }
    if "/"@.is_prefix_of(url) {
        assert(url.subrange(0, 1)[0] == "/"@[0]);
    }
}

/// An invocation is the request with its method in upper case.
pub proof fn law_invocations_are_requests(
    method: String,
    upper: String,
    url: String,
    body: Option<String>,
    headers: Vec<(String, String)>,
    request: WorkerRequest,
    same: WorkerRequest,
)
    requires
        upper@ == uppercase(method@),
        call_ensures(invocation, (method, url, body, headers), request),
        call_ensures(request_with_method, (upper, url, body, headers), same),
    ensures
        request@ == same@,
{
}

/// A response is shown line by line: its status, its headers in order, an empty
/// line, and its body. What comes before the empty line is returned.
pub proof fn law_responses_are_shown(
    response: WorkerResponse,
    more: WorkerResponse,
    key: String,
    value: String,
    body: &str,
    digits: String,
    text: String,
    longer: String,
) -> (head: Seq<char>)
    requires
        call_ensures(decimal_text, (response.status,), digits),
        call_ensures(show_parts, (&response, body), text),
        more.status == response.status,
        more.headers@ == response.headers@.push((key, value)),
        call_ensures(show_parts, (&more, body), longer),
    ensures
        text@ == head + "\n"@ + body@ + "\n"@,
        longer@ == head + (key@ + ": "@ + value@ + "\n"@) + "\n"@ + body@ + "\n"@,
        response.headers@.len() == 0 ==> head == "HTTP "@ + digits@ + "\n"@,
{
    let lines = pairs(response.headers@);
    let head = "HTTP "@ + digits@ + "\n"@ + header_lines(lines);
    assert(response@.headers == lines);
    assert(more@.headers =~= lines.push((key@, value@)));
    assert(more@.headers.drop_last() =~= lines);
    assert(text@ =~= head + "\n"@ + body@ + "\n"@);
    assert(longer@ =~= head + (key@ + ": "@ + value@ + "\n"@) + "\n"@ + body@ + "\n"@);
    if response.headers@.len() == 0 {
        assert(head =~= "HTTP "@ + digits@ + "\n"@);
    }
    head
}

/// The body of a response is shown as the text that a script gets for its bytes.
pub proof fn law_bodies_are_shown_as_text(
    response: WorkerResponse,
    decoded: Result<String, String>,
    body: &str,
    text: String,
    same: String,
)
    requires
        call_ensures(op_decode_utf8, (Some(response.body),), decoded),
        decoded is Ok ==> body@ == decoded->Ok_0@,
        call_ensures(show_response, (&response,), text),
        call_ensures(show_parts, (&response, body), same),
    ensures
        text@ == same@,
{
}

/// A single script is run with its variables as one tenant that gets all paths,
/// on one thread, and with the default limits.
pub proof fn law_scripts_are_planned(
    script: std::path::PathBuf,
    env: &[String],
    plan: Result<ServePlan, String>,
    parsed: Result<Vec<(String, String)>, String>,
    name: &str,
    found: Option<&str>,
    i: int,
)
    requires
        call_ensures(plan_script, (script, env), plan),
        call_ensures(parse_env, (env,), parsed),
        plan is Ok ==> call_ensures(Env::get, (&plan->Ok_0.workers@[0].env, name), found),
        parsed is Ok ==> -1 <= i < parsed->Ok_0@.len(),
        parsed is Ok && i >= 0 ==> parsed->Ok_0@[i].0@ == name@,
        parsed is Ok ==> forall|j: int|
            i < j < parsed->Ok_0@.len() ==> (#[trigger] parsed->Ok_0@[j]).0@ != name@,
    ensures
        plan is Ok <==> parsed is Ok,
        plan is Err ==> plan->Err_0@ == parsed->Err_0@,
        plan is Ok ==> {
            let workers = plan->Ok_0.workers@;
            &&& plan->Ok_0.worker_threads == 1
            &&& plan->Ok_0.listen@ == "127.0.0.1:8787"@
            &&& plan->Ok_0.limits.cpu_ms == 50
            &&& plan->Ok_0.limits.heap_mb == 64
            &&& plan->Ok_0.limits.isolates_max == 16
            &&& plan->Ok_0.limits.wall_timeout_ms == 10_000
            &&& workers.len() == 1
            &&& workers[0].name@ == "default"@
            &&& workers[0].script == script
            &&& workers[0].route.host is None
            &&& workers[0].route.path is Some
            &&& workers[0].route.path->0@ == "/"@
            &&& found is Some <==> i >= 0
            &&& found is Some ==> found->0@ == parsed->Ok_0@[i].1@
        },
{
    law_variables_are_read(env, parsed);
    if plan is Ok {
        let parts = choose|parts: Seq<(Seq<char>, Seq<char>)>| #[trigger]
            all_cut(env@, '=', parts) && single(plan->Ok_0, script, parts);
        assert forall|k: int| 0 <= k < env@.len() implies (#[trigger] env@[k])@.contains('=') by {
            lemma_cut(env@[k]@, '=');
        }
        let list = parsed->Ok_0@;
        assert(parts =~= pairs(list)) by {
            assert forall|k: int| 0 <= k < parts.len() implies parts[k] == pairs(list)[k] by {
                assert(split_at_first(env@[k]@, '=') == Some(parts[k]));
            }
        }
        lemma_last_value(pairs(list), name@, i);
    } else {
        let k = choose|k: int| #[trigger]
            first_without(env@, '=', k) && plan->Err_0@
                == "invalid --env (expected KEY=VALUE): "@ + env@[k]@;
        lemma_cut(env@[k]@, '=');
        assert(parsed is Err);
        let m = choose|m: int|
            {
                &&& 0 <= m < env@.len()
                &&& !(#[trigger] env@[m])@.contains('=')
                &&& forall|j: int| 0 <= j < m ==> (#[trigger] env@[j])@.contains('=')
                &&& parsed->Err_0@ == "invalid --env (expected KEY=VALUE): "@ + env@[m]@
            };
        if k < m {
            assert(env@[k]@.contains('='));
        } else if m < k {
            lemma_cut(env@[m]@, '=');
            assert(split_at_first(env@[m]@, '=') is Some);
        }
    }
}

/// A configuration is run as it stands.
pub proof fn law_configurations_are_planned(config: Config, plan: ServePlan)
    requires
        call_ensures(plan_config, (config,), plan),
    ensures
        plan.listen@ == config.server.listen@,
        plan.worker_threads == config.server.worker_threads,
        plan.limits == config.limits,
        plan.workers == config.workers,
{
}

/// Only the place of a script changes, and only where it was relative.
pub proof fn law_scripts_are_located(
    def: WorkerDef,
    relative: bool,
    joined: std::path::PathBuf,
    found: WorkerDef,
)
    requires
        call_ensures(located, (def, relative, joined), found),
    ensures
        relative ==> found.script == joined,
        !relative ==> found.script == def.script,
        found.name == def.name,
        found.route == def.route,
        found.env == def.env,
{
}

/// A tenant runs its own script with its own variables, in order, within the
/// configured limits: milliseconds are told in nanoseconds and mebibytes in bytes.
pub proof fn law_tenants_get_their_limits(
    def: WorkerDef,
    limits: Limits,
    script_source: String,
    script_url: String,
    tenant: TenantSpec,
    fits: bool,
    variables: Vec<(String, String)>,
)
    requires
        call_ensures(heap_limit_fits, (&limits,), fits),
        fits,
        call_ensures(tenant_spec, (&def, &limits, script_source, script_url), tenant),
        call_ensures(Env::to_pairs, (&def.env,), variables),
    ensures
        tenant.script_source@ == script_source@,
        tenant.script_url@ == script_url@,
        pairs(tenant.env@) == pairs(variables@),
        tenant.wall_timeout == limits.wall_timeout_ms * 1_000_000,
        tenant.cpu_budget is Some,
        tenant.cpu_budget->0 == limits.cpu_ms * 1_000_000,
        tenant.heap_limit is Some,
        tenant.heap_limit->0 == limits.heap_mb * 1_048_576,
{
}

/// A heap limit fits if its bytes can be counted.
pub proof fn law_heap_limits_fit(limits: Limits, fits: bool)
    requires
        call_ensures(heap_limit_fits, (&limits,), fits),
    ensures
        fits <==> limits.heap_mb * 1_048_576 <= usize::MAX,
{
}

/// An address that is asked for is listened on; otherwise the configured one is,
/// and one that cannot be read is named.
pub proof fn law_addresses_are_chosen<A>(
    asked: Option<A>,
    configured: &str,
    read: Option<A>,
    listen: Result<A, String>,
)
    requires
        call_ensures(listen_address::<A>, (asked, configured, read), listen),
    ensures
        asked is Some ==> listen == Ok::<A, String>(asked->0),
        asked is None && read is Some ==> listen == Ok::<A, String>(read->0),
        asked is None && read is None ==> listen is Err && listen->Err_0@
            == "invalid listen address: "@ + configured@,
{
}

/// A server is run as planned. All its threads together keep as many warm workers
/// as are allowed, up to a remainder smaller than the number of threads, and each
/// keeps at least one. Requests are routed as the tenants declare. A tenant's
/// script is the one that was read for it, for the last tenant of that name.
pub proof fn law_servers_run_as_planned<A>(
    plan: ServePlan,
    specs: Vec<TenantSpec>,
    listen: A,
    options: ServeOptions<A>,
    threads: usize,
    name: &str,
    found: Option<&TenantSpec>,
    i: int,
    host: &str,
    path: &str,
    tenant: Option<&str>,
)
    requires
        call_ensures(RouteTable::resolve, (&options.route_table, host, path), tenant),
        specs@.len() == plan.workers@.len(),
        call_ensures(build_serve_options::<A>, (plan, specs, listen), options),
        call_ensures(thread_count, (options.worker_threads,), threads),
        call_ensures(Tenants::get, (&options.tenants, name), found),
        -1 <= i < specs@.len(),
        i >= 0 ==> plan.workers@[i].name@ == name@,
        forall|j: int| i < j < specs@.len() ==> (#[trigger] plan.workers@[j]).name@ != name@,
    ensures
        options.listen == listen,
        plan.worker_threads > 0 ==> threads == plan.worker_threads,
        plan.worker_threads == 0 ==> threads == 1,
        options.isolates_per_thread >= 1,
        threads <= plan.limits.isolates_max ==> options.isolates_per_thread * threads
            <= plan.limits.isolates_max < (options.isolates_per_thread + 1) * threads,
        plan.limits.isolates_max < threads ==> options.isolates_per_thread == 1,
        found is Some <==> i >= 0,
        found is Some ==> *(found->0) == specs@[i],
        tenant is Some <==> routed(plan.workers@, host@, path@) is Some,
        tenant is Some ==> routed(plan.workers@, host@, path@) == Some(tenant->0@),
{
    law_table_follows_declarations(options.route_table, plan.workers@, host@, path@);
    lemma_last_planned(plan.workers@, specs@, name@, i);
    let n = threads as int;
    let m = plan.limits.isolates_max as int;
    vstd::arithmetic::div_mod::lemma_fundamental_div_mod(m, n);
    let q = m / n;
    assert(q * n == n * q) by (nonlinear_arith);
    assert((q + 1) * n == q * n + n) by (nonlinear_arith);
    if m < n {
        vstd::arithmetic::div_mod::lemma_basic_div(m, n);
    } else {
        law_isolates_are_shared(plan.limits.isolates_max, plan.worker_threads);
    }
}

proof fn lemma_last_planned(
    defs: Seq<WorkerDef>,
    specs: Seq<TenantSpec>,
    name: Seq<char>,
    i: int,
)
    requires
        defs.len() == specs.len(),
        -1 <= i < specs.len(),
        i >= 0 ==> defs[i].name@ == name,
        forall|j: int| i < j < specs.len() ==> (#[trigger] defs[j]).name@ != name,
    ensures
        planned_spec(defs, specs, name) == if i >= 0 { Some(specs[i]) } else { None },
    decreases defs.len(),
{
    let last = defs.len() - 1;
    if last > i {
        assert(defs[last].name@ != name);
        let rest = defs.drop_last();
        assert forall|j: int| i < j < rest.len() implies (#[trigger] rest[j]).name@ != name by {
            assert(rest[j] == defs[j]);
        }
        lemma_last_planned(rest, specs.drop_last(), name, i);
    }
}

} // verus!
