//! The variables that point a job's toolchains at the proxy.

use crate::{numbers, text};
use vstd::prelude::*;

verus! {

/// A running proxy, as `start` leaves it for `stop`.
#[derive(Debug)]
pub struct State {
    pub pid: u32,
    pub port: u16,
    pub ca_path: String,
    pub bundle_path: String,
    pub log_path: String,
}

/// A variable: its name and its value.
pub type Var = (Seq<char>, Seq<char>);

/// The variables of a vector of names and values.
pub open spec fn vars(v: Seq<(String, String)>) -> Seq<Var> {
    v.map_values(|p: (String, String)| (p.0@, p.1@))
}

/// Several variables with one value.
pub open spec fn all_set(names: Seq<Seq<char>>, value: Seq<char>) -> Seq<Var> {
    names.map_values(|name: Seq<char>| (name, value))
}

/// The address of the proxy.
pub open spec fn proxy_url(port: u16) -> Seq<char> {
    "http://127.0.0.1:"@ + numbers::decimal(port as nat)
}

/// The hosts that are reached without the proxy.
pub open spec fn direct_hosts() -> Seq<Seq<char>> {
    seq![
        "localhost"@,
        "127.0.0.1"@,
        "::1"@,
        "169.254.169.254"@,
        ".actions.githubusercontent.com"@,
        ".blob.core.windows.net"@,
    ]
}

/// The variables that name the proxy.
pub open spec fn proxy_names() -> Seq<Seq<char>> {
    seq!["HTTP_PROXY"@, "http_proxy"@, "HTTPS_PROXY"@, "https_proxy"@]
}

/// The variables that name the hosts that are reached without it.
pub open spec fn direct_names() -> Seq<Seq<char>> {
    seq!["NO_PROXY"@, "no_proxy"@]
}

/// The variables that replace a trust store.
pub open spec fn replacing_names() -> Seq<Seq<char>> {
    seq![
        "SSL_CERT_FILE"@,
        "REQUESTS_CA_BUNDLE"@,
        "CURL_CA_BUNDLE"@,
        "AWS_CA_BUNDLE"@,
        "CARGO_HTTP_CAINFO"@,
        "GIT_SSL_CAINFO"@,
    ]
}

/// The variables that add to a trust store.
pub open spec fn adding_names() -> Seq<Seq<char>> {
    seq!["NODE_EXTRA_CA_CERTS"@, "DENO_CERT"@]
}

/// Variables that point a toolchain at the proxy and at the run's CA. Variables that replace the
/// trust store get the full bundle; those that add to it get the CA alone.
///
/// Homebrew strips the CA variables from its environment but keeps the proxy ones, so its curl
/// reaches the proxy and then rejects the certificate. Reading ~/.curlrc is its documented way back
/// in.
pub open spec fn variables(state: State, macos: bool) -> Seq<Var> {
    all_set(proxy_names(), proxy_url(state.port)) + all_set(
        direct_names(),
        text::join(direct_hosts(), ","@),
    ) + all_set(replacing_names(), state.bundle_path@) + all_set(adding_names(), state.ca_path@)
        + if macos {
        seq![("HOMEBREW_CURLRC"@, "1"@)]
    } else {
        Seq::empty()
    }
}

/// Adds several variables with one value.
fn push_all(out: &mut Vec<(String, String)>, names: &[&str], value: &str)
    ensures
        vars(final(out)@) == vars(old(out)@) + all_set(text::words(names@), value@),
{
    let mut i: usize = 0;
    let ghost all = text::words(names@);
    assert(vars(out@) =~= vars(out@) + all_set(all.take(0), value@));
    while i < names.len()
        invariant
            i <= names.len(),
            all == text::words(names@),
            vars(out@) == vars(old(out)@) + all_set(all.take(i as int), value@),
        decreases names.len() - i,
    {
        let ghost before = vars(out@);
        out.push((names[i].to_string(), value.to_string()));
        assert(vars(out@) =~= before.push((all[i as int], value@)));
        assert(all_set(all.take(i + 1), value@) =~= all_set(all.take(i as int), value@).push(
            (all[i as int], value@),
        ));
        i += 1;
    }
    assert(all.take(i as int) =~= all);
}

/// The address of the proxy.
pub fn proxy_address(port: u16) -> (out: String)
    ensures
        out@ == proxy_url(port),
{
    let mut out = "http://127.0.0.1:".to_string();
    numbers::push_decimal(&mut out, port as u128);
    out
}

/// The hosts that are reached without the proxy, in one text.
fn no_proxy() -> (out: String)
    ensures
        out@ == text::join(direct_hosts(), ","@),
{
    let hosts: Vec<String> = vec![
        "localhost".to_string(),
        "127.0.0.1".to_string(),
        "::1".to_string(),
        "169.254.169.254".to_string(),
        ".actions.githubusercontent.com".to_string(),
        ".blob.core.windows.net".to_string(),
    ];
    assert(text::texts(hosts@) =~= direct_hosts());
    text::joined(hosts.as_slice(), ",")
}

/// Variables that point a toolchain at the proxy and at the run's CA. Each ecosystem reads its
/// own, and the generic `*_PROXY` pair is not enough on its own: with TLS terminated locally,
/// anything that does not trust the CA fails to connect at all.
pub fn environment(state: &State, macos: bool) -> (out: Vec<(String, String)>)
    ensures
        vars(out@) == variables(*state, macos),
{
    let proxy = proxy_address(state.port);
    let direct = no_proxy();
    let bundle = state.bundle_path.as_str();
    let ca = state.ca_path.as_str();
    let mut out: Vec<(String, String)> = Vec::new();
    let names: Vec<&str> = vec!["HTTP_PROXY", "http_proxy", "HTTPS_PROXY", "https_proxy"];
    assert(text::words(names@) =~= proxy_names());
    push_all(&mut out, names.as_slice(), proxy.as_str());
    assert(vars(out@) =~= all_set(proxy_names(), proxy@));
    let names: Vec<&str> = vec!["NO_PROXY", "no_proxy"];
    assert(text::words(names@) =~= direct_names());
    push_all(&mut out, names.as_slice(), direct.as_str());
    let names: Vec<&str> = vec![
        "SSL_CERT_FILE",
        "REQUESTS_CA_BUNDLE",
        "CURL_CA_BUNDLE",
        "AWS_CA_BUNDLE",
        "CARGO_HTTP_CAINFO",
        "GIT_SSL_CAINFO",
    ];
    assert(text::words(names@) =~= replacing_names());
    push_all(&mut out, names.as_slice(), bundle);
    let names: Vec<&str> = vec!["NODE_EXTRA_CA_CERTS", "DENO_CERT"];
    assert(text::words(names@) =~= adding_names());
    push_all(&mut out, names.as_slice(), ca);
    let ghost before = vars(out@);
    if macos {
        out.push(("HOMEBREW_CURLRC".to_string(), "1".to_string()));
        assert(vars(out@) =~= before + seq![("HOMEBREW_CURLRC"@, "1"@)]);
    } else {
        assert(before + Seq::<Var>::empty() =~= before);
    }
    out
}

/// The lines that export variables, one each: into `$GITHUB_ENV`, or for a shell.
pub open spec fn exports(list: Seq<Var>, shell: bool) -> Seq<char>
    decreases list.len(),
{
    if list.len() == 0 {
        Seq::empty()
    } else {
        exports(list.drop_last(), shell) + (if shell {
            "export "@
        } else {
            Seq::empty()
        }) + list.last().0 + "="@ + list.last().1 + "\n"@
    }
}

/// The lines that export the variables, into `$GITHUB_ENV` or for a shell.
pub fn export_environment(list: &[(String, String)], shell: bool) -> (out: String)
    ensures
        out@ == exports(vars(list@), shell),
{
    let mut out = String::new();
    let ghost all = vars(list@);
    let mut i: usize = 0;
    assert(out@ =~= exports(all.take(0), shell));
    while i < list.len()
        invariant
            i <= list.len(),
            all == vars(list@),
            out@ == exports(all.take(i as int), shell),
        decreases list.len() - i,
    {
        assert(all.take(i + 1).drop_last() =~= all.take(i as int));
        assert(all.take(i + 1).last() == (list@[i as int].0@, list@[i as int].1@));
        if shell {
            out.append("export ");
        } else {
            assert(out@ + Seq::<char>::empty() =~= out@);
        }
        out.append(list[i].0.as_str());
        out.append("=");
        out.append(list[i].1.as_str());
        out.append("\n");
        i += 1;
    }
    assert(all.take(i as int) =~= all);
    out
}

/// Whether the variables are exported into the file that the job names: it names one, and that is
/// not to be left alone. Otherwise they are printed for a shell.
pub fn exports_to_file(no_github_env: bool, named: bool) -> (out: bool)
    ensures
        out == (named && !no_github_env),
{
    named && !no_github_env
}

/// Where the proxy is asked to shut down.
pub fn shutdown_url(port: u16) -> (out: String)
    ensures
        out@ == proxy_url(port) + "/__cicache/shutdown"@,
{
    let mut out = proxy_address(port);
    out.append("/__cicache/shutdown");
    out
}

/// Every variable that replaces a trust store gets the bundle, in which the real roots are.
pub proof fn law_replaced_stores_get_the_bundle(state: State, macos: bool, name: Seq<char>)
    requires
        replacing_names().contains(name),
    ensures
        variables(state, macos).contains((name, state.bundle_path@)),
{
    let k = replacing_names().index_of(name);
    let i = proxy_names().len() + direct_names().len() + k;
    assert(replacing_names()[k] == name);
    assert(variables(state, macos)[i] == (name, state.bundle_path@));
}

/// The variables that are set, and to what: the address of the proxy for those that name a proxy; the
/// hosts that are reached without it; the bundle for those that replace a trust store; the CA for
/// those that add to one; and on macOS that Homebrew is to read curl's configuration.
pub proof fn law_the_variables(state: State, macos: bool, port: Seq<char>)
    requires
        port == numbers::decimal(state.port as nat),
    ensures
        ({
            let proxy = "http://127.0.0.1:"@ + port;
            let direct = text::join(
                seq![
                    "localhost"@,
                    "127.0.0.1"@,
                    "::1"@,
                    "169.254.169.254"@,
                    ".actions.githubusercontent.com"@,
                    ".blob.core.windows.net"@,
                ],
                seq![','],
            );
            let bundle = state.bundle_path@;
            let ca = state.ca_path@;
            let all = seq![
                ("HTTP_PROXY"@, proxy),
                ("http_proxy"@, proxy),
                ("HTTPS_PROXY"@, proxy),
                ("https_proxy"@, proxy),
                ("NO_PROXY"@, direct),
                ("no_proxy"@, direct),
                ("SSL_CERT_FILE"@, bundle),
                ("REQUESTS_CA_BUNDLE"@, bundle),
                ("CURL_CA_BUNDLE"@, bundle),
                ("AWS_CA_BUNDLE"@, bundle),
                ("CARGO_HTTP_CAINFO"@, bundle),
                ("GIT_SSL_CAINFO"@, bundle),
                ("NODE_EXTRA_CA_CERTS"@, ca),
                ("DENO_CERT"@, ca),
            ];
            variables(state, macos) == if macos {
                all.push(("HOMEBREW_CURLRC"@, "1"@))
            } else {
                all
            }
        }),
{
    reveal_strlit(",");
    assert(","@ =~= seq![',']);
    let proxy = "http://127.0.0.1:"@ + port;
    let direct = text::join(direct_hosts(), ","@);
    let bundle = state.bundle_path@;
    let ca = state.ca_path@;
    let all = seq![
        ("HTTP_PROXY"@, proxy),
        ("http_proxy"@, proxy),
        ("HTTPS_PROXY"@, proxy),
        ("https_proxy"@, proxy),
        ("NO_PROXY"@, direct),
        ("no_proxy"@, direct),
        ("SSL_CERT_FILE"@, bundle),
        ("REQUESTS_CA_BUNDLE"@, bundle),
        ("CURL_CA_BUNDLE"@, bundle),
        ("AWS_CA_BUNDLE"@, bundle),
        ("CARGO_HTTP_CAINFO"@, bundle),
        ("GIT_SSL_CAINFO"@, bundle),
        ("NODE_EXTRA_CA_CERTS"@, ca),
        ("DENO_CERT"@, ca),
    ];
    if macos {
        assert(variables(state, macos) =~= all.push(("HOMEBREW_CURLRC"@, "1"@)));
    } else {
        assert(variables(state, macos) =~= all);
    }
}

/// Each variable is exported on a line of its own: its name, an equals sign and its value, and for a
/// shell the word that exports it before.
pub proof fn law_variables_are_exported_line_by_line(list: Seq<Var>, var: Var)
    ensures
        exports(Seq::empty(), true).len() == 0,
        exports(Seq::empty(), false).len() == 0,
        exports(list.push(var), false) == exports(list, false) + var.0 + seq!['='] + var.1 + seq![
            '\n',
        ],
        exports(list.push(var), true) == exports(list, true) + "export "@ + var.0 + seq!['=']
            + var.1 + seq!['\n'],
{
    reveal_strlit("=");
    reveal_strlit("\n");
    assert("="@ =~= seq!['=']);
    assert("\n"@ =~= seq!['\n']);
    assert(list.push(var).drop_last() =~= list);
    assert(exports(list, false) + Seq::<char>::empty() =~= exports(list, false));
}

/// Variables go into the file that the job names, unless that is to be left alone. The proxy is shut
/// down at its own address.
pub proof fn law_where_variables_go(
    no_github_env: bool,
    named: bool,
    to_file: bool,
    port: u16,
    shutdown: String,
)
    requires
        call_ensures(exports_to_file, (no_github_env, named), to_file),
        call_ensures(shutdown_url, (port,), shutdown),
    ensures
        to_file <==> named && !no_github_env,
        shutdown@ == "http://127.0.0.1:"@ + numbers::decimal(port as nat) + "/__cicache/shutdown"@,
{
}

/// The variables are set and exported as stated.
pub proof fn law_variables_are_set(
    state: &State,
    macos: bool,
    set_ones: Vec<(String, String)>,
    list: &[(String, String)],
    shell: bool,
    exported: String,
    port: u16,
    address: String,
)
    requires
        call_ensures(environment, (state, macos), set_ones),
        call_ensures(export_environment, (list, shell), exported),
        call_ensures(proxy_address, (port,), address),
    ensures
        vars(set_ones@) == variables(*state, macos),
        exported@ == exports(vars(list@), shell),
        address@ == "http://127.0.0.1:"@ + numbers::decimal(port as nat),
{
}

/// A variable shows its name and its value.
pub proof fn law_variables_show_their_parts(v: Seq<(String, String)>, i: int)
    requires
        0 <= i < v.len(),
    ensures
        vars(v).len() == v.len(),
        vars(v)[i] == (v[i].0@, v[i].1@),
{
}

} // verus!
