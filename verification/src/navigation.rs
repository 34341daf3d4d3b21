//! Which URLs a webview may navigate to.
//!
//! Every window loads its own bundled page and nothing in it navigates away from that origin. So
//! a navigation to anywhere else is either a bug or a link that arrived inside untrusted content.
use vstd::prelude::*;

verus! {

/// The parts of a URL that decide whether it is the app's own.
#[derive(Debug, Clone)]
pub struct AppUrl {
    pub scheme: String,
    pub host: Option<String>,
}

/// The host, if there is one.
pub open spec fn host_text(host: Option<String>) -> Option<Seq<char>> {
    match host {
        Some(h) => Some(h@),
        None => None,
    }
}

impl View for AppUrl {
    type V = (Seq<char>, Option<Seq<char>>);

    open spec fn view(&self) -> Self::V {
        (self.scheme@, host_text(self.host))
    }
}

/// The parts of a URL, if there is one.
pub open spec fn parts_of(url: Option<AppUrl>) -> Option<(Seq<char>, Option<Seq<char>>)> {
    match url {
        Some(u) => Some(u@),
        None => None,
    }
}

/// Scheme and host of the URL that a text spells, by `url::Url::parse`; `None` for a text that
/// spells none.
pub uninterp spec fn url_parts(text: Seq<char>) -> Option<(Seq<char>, Option<Seq<char>>)>;

/// `url::Url::parse`, with the `scheme` and the `host_str` of what it returns. Claimed is that
/// they depend on the text alone.
#[verifier::external_body]
fn parse_url(text: &str) -> (r: Option<AppUrl>)
    ensures
        parts_of(r) == url_parts(text@),
{
    match url::Url::parse(text) {
        Ok(u) => Some(
            AppUrl { scheme: u.scheme().to_string(), host: u.host_str().map(String::from) },
        ),
        Err(_) => None,
    }
}

/// Whether a scheme and a host are the app's own. `dev` tells a development build.
pub open spec fn own_origin(scheme: Seq<char>, host: Option<Seq<char>>, dev: bool) -> bool {
    ||| scheme == "tauri"@
    ||| scheme == "asset"@
    ||| (scheme == "http"@ || scheme == "https"@) && match host {
        Some(h) => {
            ||| h == "tauri.localhost"@
            ||| h == "asset.localhost"@
            ||| dev && (h == "localhost"@ || h == "127.0.0.1"@)
        },
        None => false,
    }
}

/// Whether two texts are the same.
fn is(a: &String, b: &str) -> (r: bool)
    ensures
        r == (a@ == b@),
{
    *a == b.to_string()
}

impl AppUrl {
    /// The URL that a text spells.
    pub fn parse(text: &str) -> (r: Option<AppUrl>)
        ensures
            parts_of(r) == url_parts(text@),
    {
        parse_url(text)
    }
}

/// Exact-match the app's own origins.
///
/// Matching is on the whole host, never a prefix or a suffix. Custom schemes are served by the
/// app itself; where they cannot be, the same content is mapped onto `http://<scheme>.localhost`.
/// Plain localhost is the development server, and only a development build may go there.
pub fn is_app_url(url: &AppUrl, dev: bool) -> (r: bool)
    ensures
        r == own_origin(url@.0, url@.1, dev),
{
    if is(&url.scheme, "tauri") || is(&url.scheme, "asset") {
        return true;
    }
    if is(&url.scheme, "http") || is(&url.scheme, "https") {
        match &url.host {
            Some(h) => is(h, "tauri.localhost") || is(h, "asset.localhost") || (dev && (is(
                h,
                "localhost",
            ) || is(h, "127.0.0.1"))),
            None => false,
        }
    } else {
        false
    }
}

/// Whether a window may follow a link: only within the app's own origins.
pub fn allow_navigation(url: &AppUrl, dev: bool) -> (r: bool)
    ensures
        r == own_origin(url@.0, url@.1, dev),
{
    is_app_url(url, dev)
}

/// [`allow_navigation`] for a URL still spelled as text; a text that spells none goes nowhere.
pub fn allow_navigation_to(text: &str, dev: bool) -> (r: bool)
    ensures
        r == match url_parts(text@) {
            Some((scheme, host)) => own_origin(scheme, host, dev),
            None => false,
        },
{
    match AppUrl::parse(text) {
        Some(url) => allow_navigation(&url, dev),
        None => false,
    }
}

proof fn lemma_literals()
    ensures
        "http"@[0] == 'h',
        "https"@[0] == 'h',
        "tauri"@[0] == 't',
        "asset"@[0] == 'a',
        "localhost"@[0] == 'l',
        "127.0.0.1"@[0] == '1',
        "tauri.localhost"@[0] == 't',
        "asset.localhost"@[0] == 'a',
        "localhost"@.len() == 9,
        "127.0.0.1"@.len() == 9,
        "tauri.localhost"@.len() == 15,
        "asset.localhost"@.len() == 15,
{
    reveal_strlit("tauri.localhost");
    reveal_strlit("asset.localhost");
    reveal_strlit("localhost");
    reveal_strlit("127.0.0.1");
    reveal_strlit("http");
    reveal_strlit("https");
    reveal_strlit("tauri");
    reveal_strlit("asset");
}

/// Hosts are matched whole: one that merely has an own host inside it is foreign.
pub proof fn a_host_around_an_own_host_is_foreign(
    before: Seq<char>,
    after: Seq<char>,
    own: Seq<char>,
    scheme: Seq<char>,
    dev: bool,
)
    requires
        own == "tauri.localhost"@ || own == "asset.localhost"@,
        before.len() + after.len() > 0,
        scheme == "http"@ || scheme == "https"@,
    ensures
        !own_origin(scheme, Some(before + own + after), dev),
{
    lemma_literals();
    assert((before + own + after).len() == before.len() + after.len() + 15);
}

/// A first label is not enough: under it, only `localhost` is the app's own.
pub proof fn a_first_label_is_not_enough(rest: Seq<char>, scheme: Seq<char>, dev: bool)
    requires
        rest != "localhost"@,
        scheme == "http"@ || scheme == "https"@,
    ensures
        !own_origin(scheme, Some("tauri."@ + rest), dev),
        !own_origin(scheme, Some("asset."@ + rest), dev),
{
    lemma_literals();
    reveal_strlit("tauri.");
    reveal_strlit("asset.");
    reveal_strlit("tauri.localhost");
    reveal_strlit("asset.localhost");
    reveal_strlit("localhost");
    let t = "tauri."@ + rest;
    let a = "asset."@ + rest;
    assert(t[0] == 't' && a[0] == 'a');
    assert(t.skip(6) =~= rest && a.skip(6) =~= rest);
    assert("tauri.localhost"@.skip(6) =~= "localhost"@);
    assert("asset.localhost"@.skip(6) =~= "localhost"@);
}

/// A release build goes nowhere that a development build does not, and not to the development
/// server.
pub proof fn a_release_build_is_narrower(scheme: Seq<char>, host: Option<Seq<char>>)
    ensures
        own_origin(scheme, host, false) ==> own_origin(scheme, host, true),
        scheme == "http"@ || scheme == "https"@ ==> !own_origin(
            scheme,
            Some("localhost"@),
            false,
        ) && !own_origin(scheme, Some("127.0.0.1"@), false),
{
    lemma_literals();
}

/// No other scheme is the app's own, whatever the host.
pub proof fn other_schemes_are_foreign(scheme: Seq<char>, host: Option<Seq<char>>, dev: bool)
    requires
        scheme != "tauri"@,
        scheme != "asset"@,
        scheme != "http"@,
        scheme != "https"@,
    ensures
        !own_origin(scheme, host, dev),
{
}

/// The app's own schemes are its own whatever the host.
pub proof fn own_schemes_are_own(host: Option<Seq<char>>, dev: bool)
    ensures
        own_origin("tauri"@, host, dev),
        own_origin("asset"@, host, dev),
{
}

/// Over http and https, the hosts mapped onto the app's schemes are its own in every build, the
/// development server in a development build, and no other, nor a URL without a host.
pub proof fn over_http_only_these_hosts_are_own(scheme: Seq<char>, host: Seq<char>, dev: bool)
    requires
        scheme == "http"@ || scheme == "https"@,
    ensures
        host == "tauri.localhost"@ || host == "asset.localhost"@ ==> own_origin(
            scheme,
            Some(host),
            dev,
        ),
        host == "localhost"@ || host == "127.0.0.1"@ ==> own_origin(scheme, Some(host), dev) == dev,
        host != "tauri.localhost"@ && host != "asset.localhost"@ && host != "localhost"@ && host
            != "127.0.0.1"@ ==> !own_origin(scheme, Some(host), dev),
        !own_origin(scheme, None, dev),
{
    lemma_literals();
}

/// The parts of a URL are its scheme and its host, as they are.
pub proof fn the_parts_of_a_url_are_its_own(url: AppUrl)
    ensures
        url@.0 == url.scheme@,
        url.host is Some ==> url@.1 == Some(url.host->0@),
        url.host is None ==> url@.1 is None,
        parts_of(Some(url)) == Some(url@),
        parts_of(None) is None,
{
}

} // verus!
