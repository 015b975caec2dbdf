//! The rules that repair a loaded configuration, each with the warning it reports. None of
//! them can fail: a malformed configuration never stops the program from starting.
use crate::config::schema::{headers_view, ServerConfig, ServerConfigView, ServerEndpointView, SortingConfig};
use crate::config::{ConfigWarning, ConfigWarningView, Severity};
use crate::text::{
    append_chars, ascii_lower_seq, chars_of, decimal_string, eq_str, has_prefix, starts_with_str,
    string_from_chars, to_ascii_lower_chars, u64_to_chars,
};
use vstd::prelude::*;

verus! {

/// At most this many rules per sort profile.
pub const MAX_SORT_RULES: usize = 4;

/// At most this many tracks are prefetched ahead.
pub const MAX_PREFETCH_NEXT: u8 = 10;

fn push_str(out: &mut Vec<char>, s: &str)
    ensures
        final(out)@ == old(out)@ + s@,
{
    let c = chars_of(s);
    append_chars(out, &c);
}

/// A warning with the given text.
pub open spec fn warning(field: Seq<char>, message: Seq<char>, severity: Severity) -> ConfigWarningView {
    ConfigWarningView { field, message, severity }
}

/// `w` is a warning, the one given.
pub open spec fn gives(w: Option<ConfigWarning>, v: ConfigWarningView) -> bool {
    w matches Some(x) && x@ == v
}

/// The warnings as plain values.
pub open spec fn warnings_view(w: Seq<ConfigWarning>) -> Seq<ConfigWarningView> {
    w.map_values(|x: ConfigWarning| x@)
}

// ------------------------------------------------------------------ servers

/// The servers with every repeated id after its first occurrence dropped.
pub open spec fn first_of_each_id(s: Seq<ServerConfig>) -> Seq<ServerConfig>
    decreases s.len(),
{
    if s.len() == 0 {
        s
    } else if exists|j: int| 0 <= j < s.len() - 1 && #[trigger] s[j].id@ == s.last().id@ {
        first_of_each_id(s.drop_last())
    } else {
        first_of_each_id(s.drop_last()).push(s.last())
    }
}

/// Some id occurs twice.
pub open spec fn has_duplicate_id(s: Seq<ServerConfig>) -> bool {
    exists|i: int, j: int| 0 <= i < j < s.len() && #[trigger] s[i].id@ == #[trigger] s[j].id@
}

/// De-duplication keeps only servers it was given, leaves no id twice, and drops no id: every
/// id of the input is still held by some server.
pub proof fn lemma_first_of_each_id(s: Seq<ServerConfig>)
    ensures
        !has_duplicate_id(first_of_each_id(s)),
        forall|k: int| 0 <= k < first_of_each_id(s).len() ==> s.contains(#[trigger] first_of_each_id(s)[k]),
        forall|j: int| 0 <= j < s.len() ==> exists|k: int| 0 <= k < first_of_each_id(s).len()
            && #[trigger] first_of_each_id(s)[k].id@ == #[trigger] s[j].id@,
    decreases s.len(),
{
    if s.len() > 0 {
        let d = s.drop_last();
        lemma_first_of_each_id(d);
        let r0 = first_of_each_id(d);
        let r = first_of_each_id(s);
        assert forall|k: int| 0 <= k < r0.len() implies s.contains(#[trigger] r0[k]) by {
            let j = choose|j: int| 0 <= j < d.len() && d[j] == r0[k];
            assert(s[j] == r0[k]);
        }
        if exists|j: int| 0 <= j < s.len() - 1 && #[trigger] s[j].id@ == s.last().id@ {
            assert(r == r0);
            assert forall|j: int| 0 <= j < s.len() implies exists|k: int| 0 <= k < r.len()
                && #[trigger] r[k].id@ == #[trigger] s[j].id@ by {
                if j < s.len() - 1 {
                    assert(s[j] == d[j]);
                    let k = choose|k: int| 0 <= k < r0.len() && #[trigger] r0[k].id@ == #[trigger] d[j].id@;
                    assert(r[k].id@ == s[j].id@);
                } else {
                    let j0 = choose|j0: int| 0 <= j0 < s.len() - 1 && #[trigger] s[j0].id@ == s.last().id@;
                    assert(s[j0] == d[j0]);
                    let k = choose|k: int| 0 <= k < r0.len() && #[trigger] r0[k].id@ == #[trigger] d[j0].id@;
                    assert(r[k].id@ == s[j].id@);
                }
            }
        } else {
            assert(r == r0.push(s.last()));
            assert forall|k: int| 0 <= k < r0.len() implies (#[trigger] r0[k]).id@ != s.last().id@ by {
                let j = choose|j: int| 0 <= j < d.len() && d[j] == r0[k];
                assert(s[j] == d[j]);
            }
            assert forall|a: int, b: int| 0 <= a < b < r.len() implies (#[trigger] r[a]).id@ != (#[trigger] r[b]).id@ by {
                assert(r[a] == r0[a]);
                if b < r0.len() {
                    assert(r[b] == r0[b]);
                } else {
                    assert(r[b] == s.last());
                }
            }
            assert forall|k: int| 0 <= k < r.len() implies s.contains(#[trigger] r[k]) by {
                if k < r0.len() {
                    assert(r[k] == r0[k]);
                } else {
                    assert(r[k] == s[s.len() - 1]);
                }
            }
            assert forall|j: int| 0 <= j < s.len() implies exists|k: int| 0 <= k < r.len()
                && #[trigger] r[k].id@ == #[trigger] s[j].id@ by {
                if j < s.len() - 1 {
                    assert(s[j] == d[j]);
                    let k = choose|k: int| 0 <= k < r0.len() && #[trigger] r0[k].id@ == #[trigger] d[j].id@;
                    assert(r[k] == r0[k]);
                } else {
                    assert(r[r0.len() as int].id@ == s[j].id@);
                }
            }
        }
    }
}

/// Drops every server whose id an earlier one already has; warns once if any went.
pub fn dedup_server_ids(servers: &mut Vec<ServerConfig>) -> (w: Option<ConfigWarning>)
    ensures
        final(servers)@ == first_of_each_id(old(servers)@),
        has_duplicate_id(old(servers)@) ==> gives(w, warning("servers"@,
            "duplicate server ids found; kept the first occurrence of each"@, Severity::Warning)),
        !has_duplicate_id(old(servers)@) ==> w is None,
{
    let mut all = Vec::new();
    std::mem::swap(&mut all, servers);
    let ghost input = all@;
    let mut reversed: Vec<ServerConfig> = Vec::new();
    while all.len() > 0
        invariant
            reversed@.len() + all@.len() == input.len(),
            all@ == input.take(all@.len() as int),
            forall|k: int| 0 <= k < reversed@.len() ==> #[trigger] reversed@[k] == input[input.len() - 1 - k],
        decreases all.len(),
    {
        let s = all.pop().unwrap();
        reversed.push(s);
        assert(all@ =~= input.take(all@.len() as int));
    }
    let n = reversed.len();
    let mut dup = false;
    let mut ids: Vec<String> = Vec::new();
    let mut i: usize = 0;
    while i < n
        invariant
            n == input.len(),
            i <= n,
            reversed@.len() + i == n,
            forall|k: int| 0 <= k < reversed@.len() ==> #[trigger] reversed@[k] == input[input.len() - 1 - k],
            servers@ == first_of_each_id(input.take(i as int)),
            dup == has_duplicate_id(input.take(i as int)),
            ids@.len() == i,
            forall|k: int| 0 <= k < i ==> (#[trigger] ids@[k])@ == input[k].id@,
        decreases n - i,
    {
        let s = reversed.pop().unwrap();
        assert(s == input[i as int]);
        let ghost pre = input.take(i as int);
        let ghost cur = input.take(i as int + 1);
        proof { assert(cur.drop_last() =~= pre); }
        let mut seen = false;
        let mut k: usize = 0;
        while k < i && !seen
            invariant
                k <= i,
                i < n,
                n == input.len(),
                ids@.len() == i,
                forall|q: int| 0 <= q < i ==> (#[trigger] ids@[q])@ == input[q].id@,
                s == input[i as int],
                !seen ==> forall|q: int| 0 <= q < k ==> input[q].id@ != s.id@,
                seen ==> exists|q: int| 0 <= q < i && #[trigger] input[q].id@ == s.id@,
            decreases i - k + (if seen { 0int } else { 1int }),
        {
            if crate::text::str_eq(ids[k].as_str(), s.id.as_str()) {
                assert(input[k as int].id@ == s.id@);
                seen = true;
            } else {
                k = k + 1;
            }
        }
        proof {
            assert forall|j: int| 0 <= j < cur.len() - 1 implies (#[trigger] cur[j]).id@ == input[j].id@ by {}
            if seen {
                let q = choose|q: int| 0 <= q < i && #[trigger] input[q].id@ == s.id@;
                assert(cur[q].id@ == cur.last().id@);
                assert(cur[q].id@ == cur[i as int].id@);
            } else {
                if has_duplicate_id(cur) {
                    let (a, b) = choose|a: int, b: int| 0 <= a < b < cur.len() && #[trigger] cur[a].id@ == #[trigger] cur[b].id@;
                    if b < i {
                        assert(pre[a].id@ == pre[b].id@);
                    } else {
                        assert(input[a].id@ != s.id@);
                    }
                }
                if has_duplicate_id(pre) {
                    let (a, b) = choose|a: int, b: int| 0 <= a < b < pre.len() && #[trigger] pre[a].id@ == #[trigger] pre[b].id@;
                    assert(cur[a].id@ == cur[b].id@);
                }
            }
            if has_duplicate_id(pre) {
                let (a, b) = choose|a: int, b: int| 0 <= a < b < pre.len() && #[trigger] pre[a].id@ == #[trigger] pre[b].id@;
                assert(cur[a].id@ == cur[b].id@);
            }
        }
        ids.push(s.id.clone());
        if !seen {
            servers.push(s);
        } else {
            dup = true;
        }
        i = i + 1;
    }
    proof { assert(input.take(n as int) =~= input); }
    if dup {
        Some(ConfigWarning::new(
            "servers",
            "duplicate server ids found; kept the first occurrence of each".to_string(),
            Severity::Warning,
        ))
    } else {
        None
    }
}

/// An address the client can use: it starts `http://` or `https://`.
pub open spec fn url_ok(url: Seq<char>) -> bool {
    has_prefix(url, "http://"@) || has_prefix(url, "https://"@)
}

fn url_usable(url: &str) -> (r: bool)
    ensures
        r == url_ok(url@),
{
    let c = chars_of(url);
    starts_with_str(&c, "http://") || starts_with_str(&c, "https://")
}

/// The warnings about `s`'s fallbacks from the `i`-th on that have no usable address.
pub open spec fn fallback_url_warnings(id: Seq<char>, fbs: Seq<ServerEndpointView>, i: int) -> Seq<ConfigWarningView>
    decreases fbs.len() - i,
{
    if i < 0 || i >= fbs.len() {
        Seq::empty()
    } else {
        let rest = fallback_url_warnings(id, fbs, i + 1);
        if url_ok(fbs[i].url) {
            rest
        } else {
            seq![warning("servers.fallbacks.url"@,
                "server \""@ + id + "\" fallback "@ + decimal_string(i as nat) + " has an empty or non-http(s) url"@,
                Severity::Warning)] + rest
        }
    }
}

/// The warnings about a server's unusable addresses: the primary first, then each fallback.
pub open spec fn url_warnings(s: ServerConfigView) -> Seq<ConfigWarningView> {
    let primary = if url_ok(s.url) {
        Seq::empty()
    } else {
        seq![warning("servers.url"@, "server \""@ + s.id + "\" has an empty or non-http(s) url"@, Severity::Warning)]
    };
    primary + fallback_url_warnings(s.id, s.fallbacks, 0)
}

/// An address that starts with `http://` or `https://`, spelled out.
pub open spec fn http_scheme(u: Seq<char>) -> bool {
    (u.len() >= 7 && u.take(7) == seq!['h', 't', 't', 'p', ':', '/', '/'])
        || (u.len() >= 8 && u.take(8) == seq!['h', 't', 't', 'p', 's', ':', '/', '/'])
}

proof fn lemma_scheme_ok(u: Seq<char>)
    ensures
        url_ok(u) == http_scheme(u),
{
    reveal_strlit("http://");
    reveal_strlit("https://");
    assert("http://"@ =~= seq!['h', 't', 't', 'p', ':', '/', '/']);
    assert("https://"@ =~= seq!['h', 't', 't', 'p', 's', ':', '/', '/']);
}

proof fn lemma_fallbacks_clean(id: Seq<char>, fbs: Seq<ServerEndpointView>, i: int)
    requires
        0 <= i,
        forall|k: int| i <= k < fbs.len() ==> http_scheme(#[trigger] fbs[k].url),
    ensures
        fallback_url_warnings(id, fbs, i).len() == 0,
    decreases fbs.len() - i,
{
    if i < fbs.len() {
        lemma_scheme_ok(fbs[i].url);
        lemma_fallbacks_clean(id, fbs, i + 1);
    }
}

proof fn lemma_fallback_flagged(id: Seq<char>, fbs: Seq<ServerEndpointView>, i: int, k: int)
    requires
        0 <= i <= k < fbs.len(),
        !http_scheme(fbs[k].url),
    ensures
        fallback_url_warnings(id, fbs, i).len() > 0,
    decreases k - i,
{
    lemma_scheme_ok(fbs[i].url);
    if i < k {
        lemma_fallback_flagged(id, fbs, i + 1, k);
    }
}

/// Law: an address is usable exactly when it starts with `http://` or `https://`. A server whose
/// addresses all do draws no warning; a primary address that does not draws one warning, on
/// `servers.url`, ahead of the fallbacks'; and a fallback that does not draws one as well.
pub proof fn lemma_url_warnings_law(s: ServerConfigView)
    ensures
        http_scheme(s.url) && (forall|k: int| 0 <= k < s.fallbacks.len() ==> http_scheme(#[trigger] s.fallbacks[k].url))
            ==> url_warnings(s).len() == 0,
        http_scheme(s.url) ==> url_warnings(s) == fallback_url_warnings(s.id, s.fallbacks, 0),
        !http_scheme(s.url) ==> url_warnings(s).len() == fallback_url_warnings(s.id, s.fallbacks, 0).len() + 1
            && url_warnings(s)[0].field == "servers.url"@ && url_warnings(s)[0].severity == Severity::Warning,
        forall|k: int| 0 <= k < s.fallbacks.len() && !http_scheme(#[trigger] s.fallbacks[k].url)
            ==> url_warnings(s).len() > 0,
{
    lemma_scheme_ok(s.url);
    let fw = fallback_url_warnings(s.id, s.fallbacks, 0);
    if http_scheme(s.url) {
        assert(url_warnings(s) =~= fw);
        if forall|k: int| 0 <= k < s.fallbacks.len() ==> http_scheme(#[trigger] s.fallbacks[k].url) {
            lemma_fallbacks_clean(s.id, s.fallbacks, 0);
        }
    }
    assert forall|k: int| 0 <= k < s.fallbacks.len() && !http_scheme(#[trigger] s.fallbacks[k].url)
        implies url_warnings(s).len() > 0 by {
        lemma_fallback_flagged(s.id, s.fallbacks, 0, k);
    }
}

/// Warns about every address of `server` (primary and fallbacks) that is not `http(s)://`.
pub fn validate_server_url(server: &ServerConfig) -> (w: Vec<ConfigWarning>)
    ensures
        warnings_view(w@) == url_warnings(server@),
{
    let mut w: Vec<ConfigWarning> = Vec::new();
    if !url_usable(server.url.as_str()) {
        let mut m: Vec<char> = Vec::new();
        push_str(&mut m, "server \"");
        push_str(&mut m, server.id.as_str());
        push_str(&mut m, "\" has an empty or non-http(s) url");
        w.push(ConfigWarning::new("servers.url", string_from_chars(&m), Severity::Warning));
    }
    let ghost head = warnings_view(w@);
    let n = server.fallbacks.len();
    let mut i: usize = 0;
    while i < n
        invariant
            n == server.fallbacks@.len(),
            server@.fallbacks.len() == n,
            i <= n,
            warnings_view(w@) + fallback_url_warnings(server@.id, server@.fallbacks, i as int)
                == head + fallback_url_warnings(server@.id, server@.fallbacks, 0),
        decreases n - i,
    {
        assert(server@.fallbacks[i as int] == server.fallbacks@[i as int]@);
        let ghost before = warnings_view(w@);
        if !url_usable(server.fallbacks[i].url.as_str()) {
            let mut m: Vec<char> = Vec::new();
            push_str(&mut m, "server \"");
            push_str(&mut m, server.id.as_str());
            push_str(&mut m, "\" fallback ");
            append_chars(&mut m, &u64_to_chars(i as u64));
            push_str(&mut m, " has an empty or non-http(s) url");
            w.push(ConfigWarning::new("servers.fallbacks.url", string_from_chars(&m), Severity::Warning));
            proof {
                assert(warnings_view(w@) =~= before.push(w@.last()@));
                let rest = fallback_url_warnings(server@.id, server@.fallbacks, i as int + 1);
                assert(before.push(w@.last()@) + rest =~= before + (seq![w@.last()@] + rest));
            }
        }
        i = i + 1;
    }
    proof {
        assert(fallback_url_warnings(server@.id, server@.fallbacks, n as int) =~= Seq::<ConfigWarningView>::empty());
        assert(warnings_view(w@) =~= warnings_view(w@) + Seq::<ConfigWarningView>::empty());
    }
    w
}

/// Header names only the client itself may set.
pub open spec fn is_reserved_header(name: Seq<char>) -> bool {
    let l = ascii_lower_seq(name);
    l == "authorization"@ || l == "x-emby-authorization"@ || l == "host"@ || l == "content-length"@
}

/// The headers that may stay, in order.
pub open spec fn allowed_headers(h: Seq<(Seq<char>, Seq<char>)>) -> Seq<(Seq<char>, Seq<char>)>
    decreases h.len(),
{
    if h.len() == 0 {
        h
    } else if is_reserved_header(h.last().0) {
        allowed_headers(h.drop_last())
    } else {
        allowed_headers(h.drop_last()).push(h.last())
    }
}

/// The warnings for the reserved headers among `h`, in order.
pub open spec fn header_warnings(h: Seq<(Seq<char>, Seq<char>)>) -> Seq<ConfigWarningView>
    decreases h.len(),
{
    if h.len() == 0 {
        Seq::empty()
    } else if is_reserved_header(h.last().0) {
        header_warnings(h.drop_last()).push(warning("servers.custom_headers"@,
            "header \""@ + h.last().0 + "\" is set by loxia and cannot be overridden; removed"@, Severity::Warning))
    } else {
        header_warnings(h.drop_last())
    }
}

fn reserved_header(name: &str) -> (r: bool)
    ensures
        r == is_reserved_header(name@),
{
    let l = to_ascii_lower_chars(&chars_of(name));
    eq_str(&l, "authorization") || eq_str(&l, "x-emby-authorization") || eq_str(&l, "host") || eq_str(&l, "content-length")
}

/// Removes the reserved headers from one header list, adding a warning for each.
fn strip_headers(headers: &mut Vec<(String, String)>, w: &mut Vec<ConfigWarning>)
    ensures
        headers_view(final(headers)@) == allowed_headers(headers_view(old(headers)@)),
        warnings_view(final(w)@) == warnings_view(old(w)@) + header_warnings(headers_view(old(headers)@)),
{
    let mut all = Vec::new();
    std::mem::swap(&mut all, headers);
    let ghost input = all@;
    let ghost w0 = warnings_view(w@);
    let mut reversed: Vec<(String, String)> = Vec::new();
    while all.len() > 0
        invariant
            reversed@.len() + all@.len() == input.len(),
            all@ == input.take(all@.len() as int),
            forall|k: int| 0 <= k < reversed@.len() ==> #[trigger] reversed@[k] == input[input.len() - 1 - k],
        decreases all.len(),
    {
        let h = all.pop().unwrap();
        reversed.push(h);
        assert(all@ =~= input.take(all@.len() as int));
    }
    let n = reversed.len();
    let mut i: usize = 0;
    while i < n
        invariant
            n == input.len(),
            i <= n,
            reversed@.len() + i == n,
            forall|k: int| 0 <= k < reversed@.len() ==> #[trigger] reversed@[k] == input[input.len() - 1 - k],
            headers_view(headers@) == allowed_headers(headers_view(input.take(i as int))),
            warnings_view(w@) == w0 + header_warnings(headers_view(input.take(i as int))),
        decreases n - i,
    {
        let h = reversed.pop().unwrap();
        assert(h == input[i as int]);
        proof {
            assert(headers_view(input.take(i as int + 1)).drop_last() =~= headers_view(input.take(i as int)));
            assert(headers_view(input.take(i as int + 1)).last() == (h.0@, h.1@));
        }
        let ghost hb = headers_view(headers@);
        let ghost wb = warnings_view(w@);
        if reserved_header(h.0.as_str()) {
            let mut m: Vec<char> = Vec::new();
            push_str(&mut m, "header \"");
            push_str(&mut m, h.0.as_str());
            push_str(&mut m, "\" is set by loxia and cannot be overridden; removed");
            w.push(ConfigWarning::new("servers.custom_headers", string_from_chars(&m), Severity::Warning));
            assert(warnings_view(w@) =~= wb.push(w@.last()@));
        } else {
            headers.push(h);
            assert(headers_view(headers@) =~= hb.push((h.0@, h.1@)));
        }
        i = i + 1;
    }
    proof { assert(input.take(n as int) =~= input); }
}

/// The fallbacks with their reserved headers removed.
pub open spec fn stripped_fallbacks(fbs: Seq<ServerEndpointView>) -> Seq<ServerEndpointView> {
    fbs.map_values(|e: ServerEndpointView| ServerEndpointView { url: e.url, custom_headers: allowed_headers(e.custom_headers) })
}

/// The warnings for the reserved headers of the fallbacks, fallback by fallback.
pub open spec fn fallback_header_warnings(fbs: Seq<ServerEndpointView>) -> Seq<ConfigWarningView>
    decreases fbs.len(),
{
    if fbs.len() == 0 {
        Seq::empty()
    } else {
        fallback_header_warnings(fbs.drop_last()) + header_warnings(fbs.last().custom_headers)
    }
}

/// Removes headers only the client may set from every address of `server`, warning for each.
pub fn strip_reserved_headers(server: &mut ServerConfig) -> (w: Vec<ConfigWarning>)
    ensures
        final(server)@ == (ServerConfigView {
            custom_headers: allowed_headers(old(server)@.custom_headers),
            fallbacks: stripped_fallbacks(old(server)@.fallbacks),
            ..old(server)@
        }),
        warnings_view(w@) == header_warnings(old(server)@.custom_headers) + fallback_header_warnings(old(server)@.fallbacks),
{
    let mut w: Vec<ConfigWarning> = Vec::new();
    strip_headers(&mut server.custom_headers, &mut w);
    let ghost fb0 = server@.fallbacks;
    let ghost head = warnings_view(w@);
    proof { assert(head =~= Seq::<ConfigWarningView>::empty() + header_warnings(old(server)@.custom_headers)); }
    let n = server.fallbacks.len();
    let mut i: usize = 0;
    while i < n
        invariant
            n == server.fallbacks@.len(),
            fb0.len() == n,
            i <= n,
            forall|k: int| 0 <= k < i ==> #[trigger] server.fallbacks@[k]@ == (ServerEndpointView {
                url: fb0[k].url, custom_headers: allowed_headers(fb0[k].custom_headers) }),
            forall|k: int| i <= k < n ==> #[trigger] server.fallbacks@[k]@ == fb0[k],
            warnings_view(w@) == head + fallback_header_warnings(fb0.take(i as int)),
            server.id@ == old(server)@.id,
            server.name@ == old(server)@.name,
            server.url@ == old(server)@.url,
            server.user_id@ == old(server)@.user_id,
            server.access_token@ == old(server)@.access_token,
            server.device_id@ == old(server)@.device_id,
            server.server_id@ == old(server)@.server_id,
            headers_view(server.custom_headers@) == allowed_headers(old(server)@.custom_headers),
            fb0 == old(server)@.fallbacks,
        decreases n - i,
    {
        let ghost before = server.fallbacks@;
        let mut e = server.fallbacks.remove(i);
        assert(e@ == fb0[i as int]);
        let ghost wb = warnings_view(w@);
        strip_headers(&mut e.custom_headers, &mut w);
        server.fallbacks.insert(i, e);
        proof {
            assert(server.fallbacks@ =~= before.update(i as int, e));
            assert(e@ == (ServerEndpointView { url: fb0[i as int].url, custom_headers: allowed_headers(fb0[i as int].custom_headers) }));
            assert(fb0.take(i as int + 1).drop_last() =~= fb0.take(i as int));
            assert(fallback_header_warnings(fb0.take(i as int + 1)) == fallback_header_warnings(fb0.take(i as int)) + header_warnings(fb0[i as int].custom_headers));
            assert((head + fallback_header_warnings(fb0.take(i as int))) + header_warnings(fb0[i as int].custom_headers)
                =~= head + fallback_header_warnings(fb0.take(i as int + 1)));
        }
        i = i + 1;
    }
    proof {
        assert(fb0.take(n as int) =~= fb0);
        assert(server@.fallbacks =~= stripped_fallbacks(fb0));
    }
    w
}

/// The server whose id is `active`, if there is one.
pub open spec fn names_server(servers: Seq<ServerConfig>, active: Seq<char>) -> bool {
    exists|i: int| 0 <= i < servers.len() && #[trigger] servers[i].id@ == active
}

/// Makes `active` name a configured server: left alone if it does; the only server's id when
/// there is exactly one; otherwise cleared (with no warning when it was already empty and there
/// are no servers).
pub fn resolve_active_server(servers: &Vec<ServerConfig>, active: &mut String) -> (w: Option<ConfigWarning>)
    ensures
        names_server(servers@, old(active)@) ==> final(active)@ == old(active)@ && w is None,
        !names_server(servers@, old(active)@) && servers@.len() == 1 ==> final(active)@ == servers@[0].id@
            && gives(w, warning("active_server"@,
                "active_server did not match any configured server; selected the only one available"@, Severity::Info)),
        !names_server(servers@, old(active)@) && servers@.len() != 1 && (old(active)@.len() > 0 || servers@.len() > 0)
            ==> final(active)@ == Seq::<char>::empty() && gives(w, warning("active_server"@,
                "active_server did not match any configured server; cleared"@, Severity::Warning)),
        !names_server(servers@, old(active)@) && servers@.len() == 0 && old(active)@.len() == 0
            ==> final(active)@ == old(active)@ && w is None,
{
    let mut i: usize = 0;
    while i < servers.len()
        invariant
            i <= servers@.len(),
            forall|k: int| 0 <= k < i ==> servers@[k].id@ != active@,
        decreases servers@.len() - i,
    {
        if crate::text::str_eq(servers[i].id.as_str(), active.as_str()) {
            assert(servers@[i as int].id@ == active@);
            return None;
        }
        i = i + 1;
    }
    if servers.len() == 1 {
        *active = servers[0].id.clone();
        return Some(ConfigWarning::new(
            "active_server",
            "active_server did not match any configured server; selected the only one available".to_string(),
            Severity::Info,
        ));
    }
    if chars_of(active.as_str()).len() > 0 || servers.len() > 0 {
        *active = String::new();
        return Some(ConfigWarning::new(
            "active_server",
            "active_server did not match any configured server; cleared".to_string(),
            Severity::Warning,
        ));
    }
    None
}

/// The id storage is keyed on: the active server's own server id when it has one, else the
/// active profile's id.
pub open spec fn spec_storage_server_id(servers: Seq<ServerConfig>, active: Seq<char>) -> Seq<char> {
    if names_server(servers, active) {
        let i = choose|i: int| 0 <= i < servers.len() && #[trigger] servers[i].id@ == active
            && forall|j: int| 0 <= j < i ==> servers[j].id@ != active;
        if servers[i].server_id@.len() > 0 { servers[i].server_id@ } else { active }
    } else {
        active
    }
}

/// The id the cache, downloads and session of the active server are stored under.
pub fn storage_server_id(servers: &Vec<ServerConfig>, active: &str) -> (r: String)
    ensures
        r@ == spec_storage_server_id(servers@, active@),
{
    let mut i: usize = 0;
    while i < servers.len()
        invariant
            i <= servers@.len(),
            forall|k: int| 0 <= k < i ==> servers@[k].id@ != active@,
        decreases servers@.len() - i,
    {
        if crate::text::str_eq(servers[i].id.as_str(), active) {
            proof {
                let c = choose|c: int| 0 <= c < servers@.len() && #[trigger] servers@[c].id@ == active@
                    && forall|j: int| 0 <= j < c ==> servers@[j].id@ != active@;
                assert(servers@[i as int].id@ == active@);
                if c < i { assert(servers@[c].id@ != active@); }
                if c > i { assert(servers@[i as int].id@ != active@); }
            }
            if chars_of(servers[i].server_id.as_str()).len() > 0 {
                return servers[i].server_id.clone();
            }
            return active.to_string();
        }
        i = i + 1;
    }
    active.to_string()
}

// ------------------------------------------------------------------ sorting

/// Cuts every sort profile down to its first four rules, warning for each one cut.
pub fn truncate_sort_rules(sorting: &mut SortingConfig) -> (w: Vec<ConfigWarning>)
    ensures
        final(sorting).default_queue_profile@ == old(sorting).default_queue_profile@,
        final(sorting).profiles@.len() == old(sorting).profiles@.len(),
        forall|k: int| 0 <= k < final(sorting).profiles@.len() ==> {
            let p = old(sorting).profiles@[k];
            &&& (#[trigger] final(sorting).profiles@[k]).name@ == p.name@
            &&& final(sorting).profiles@[k].rules@ == (if p.rules@.len() > MAX_SORT_RULES { p.rules@.take(MAX_SORT_RULES as int) } else { p.rules@ })
        },
        warnings_view(w@) == truncation_warnings(old(sorting).profiles@.map_values(|p: crate::config::schema::SortProfile| (p.name@, p.rules@.len()))),
{
    let ghost ps = sorting.profiles@;
    let mut w: Vec<ConfigWarning> = Vec::new();
    let n = sorting.profiles.len();
    let mut i: usize = 0;
    while i < n
        invariant
            n == sorting.profiles@.len(),
            n == ps.len(),
            i <= n,
            sorting.default_queue_profile@ == old(sorting).default_queue_profile@,
            ps == old(sorting).profiles@,
            forall|k: int| i <= k < n ==> #[trigger] sorting.profiles@[k] == ps[k],
            forall|k: int| 0 <= k < i ==> (#[trigger] sorting.profiles@[k]).name@ == ps[k].name@
                && sorting.profiles@[k].rules@ == (if ps[k].rules@.len() > MAX_SORT_RULES { ps[k].rules@.take(MAX_SORT_RULES as int) } else { ps[k].rules@ }),
            warnings_view(w@) == truncation_warnings(ps.map_values(|p: crate::config::schema::SortProfile| (p.name@, p.rules@.len())).take(i as int)),
        decreases n - i,
    {
        let mut p = sorting.profiles.remove(i);
        let ghost wb = warnings_view(w@);
        let ghost sizes = ps.map_values(|p: crate::config::schema::SortProfile| (p.name@, p.rules@.len()));
        proof {
            assert(sizes.take(i as int + 1).drop_last() =~= sizes.take(i as int));
        }
        if p.rules.len() > MAX_SORT_RULES {
            p.rules.truncate(MAX_SORT_RULES);
            let mut m: Vec<char> = Vec::new();
            push_str(&mut m, "sort profile \"");
            push_str(&mut m, p.name.as_str());
            push_str(&mut m, "\" had more than 4 rules; truncated");
            w.push(ConfigWarning::new("sorting.profiles.rules", string_from_chars(&m), Severity::Warning));
            assert(warnings_view(w@) =~= wb.push(w@.last()@));
        }
        sorting.profiles.insert(i, p);
        i = i + 1;
    }
    proof {
        assert(ps.map_values(|p: crate::config::schema::SortProfile| (p.name@, p.rules@.len())).take(n as int)
            =~= ps.map_values(|p: crate::config::schema::SortProfile| (p.name@, p.rules@.len())));
    }
    w
}

/// The warnings for the profiles (name and rule count) with more than four rules, in order.
pub open spec fn truncation_warnings(profiles: Seq<(Seq<char>, nat)>) -> Seq<ConfigWarningView>
    decreases profiles.len(),
{
    if profiles.len() == 0 {
        Seq::empty()
    } else if profiles.last().1 > MAX_SORT_RULES {
        truncation_warnings(profiles.drop_last()).push(warning("sorting.profiles.rules"@,
            "sort profile \""@ + profiles.last().0 + "\" had more than 4 rules; truncated"@, Severity::Warning))
    } else {
        truncation_warnings(profiles.drop_last())
    }
}

/// Makes the default queue profile name one of the profiles: left alone if it does; else reset
/// to the first profile's name (or empty when there are none), warning when that changed it.
pub fn resolve_default_queue_profile(sorting: &mut SortingConfig) -> (w: Option<ConfigWarning>)
    ensures
        final(sorting).profiles@ == old(sorting).profiles@,
        ({
            let names_one = exists|i: int| 0 <= i < old(sorting).profiles@.len()
                && #[trigger] old(sorting).profiles@[i].name@ == old(sorting).default_queue_profile@;
            let fallback = if old(sorting).profiles@.len() > 0 { old(sorting).profiles@[0].name@ } else { Seq::<char>::empty() };
            if names_one || fallback == old(sorting).default_queue_profile@ {
                final(sorting).default_queue_profile@ == old(sorting).default_queue_profile@ && w is None
            } else {
                final(sorting).default_queue_profile@ == fallback && gives(w, warning(
                    "sorting.default_queue_profile"@, "default_queue_profile did not match any profile; reset"@, Severity::Warning))
            }
        }),
{
    let mut i: usize = 0;
    while i < sorting.profiles.len()
        invariant
            i <= sorting.profiles@.len(),
            forall|k: int| 0 <= k < i ==> sorting.profiles@[k].name@ != sorting.default_queue_profile@,
        decreases sorting.profiles@.len() - i,
    {
        if crate::text::str_eq(sorting.profiles[i].name.as_str(), sorting.default_queue_profile.as_str()) {
            assert(sorting.profiles@[i as int].name@ == sorting.default_queue_profile@);
            return None;
        }
        i = i + 1;
    }
    let fallback = if sorting.profiles.len() > 0 { sorting.profiles[0].name.clone() } else { String::new() };
    if crate::text::str_eq(fallback.as_str(), sorting.default_queue_profile.as_str()) {
        return None;
    }
    sorting.default_queue_profile = fallback;
    Some(ConfigWarning::new(
        "sorting.default_queue_profile",
        "default_queue_profile did not match any profile; reset".to_string(),
        Severity::Warning,
    ))
}

// ------------------------------------------------------------------ the rest

/// Caps how many tracks are prefetched ahead at ten, warning when it had to.
pub fn clamp_prefetch_next(prefetch: &mut u8) -> (w: Option<ConfigWarning>)
    ensures
        *old(prefetch) > MAX_PREFETCH_NEXT ==> *final(prefetch) == MAX_PREFETCH_NEXT && gives(w, warning("cache.prefetch_next"@,
                "prefetch_next must be at most 10; clamped from "@ + decimal_string(*old(prefetch) as nat), Severity::Warning)),
        *old(prefetch) <= MAX_PREFETCH_NEXT ==> *final(prefetch) == *old(prefetch) && w is None,
{
    if *prefetch > MAX_PREFETCH_NEXT {
        let mut m: Vec<char> = Vec::new();
        push_str(&mut m, "prefetch_next must be at most 10; clamped from ");
        append_chars(&mut m, &u64_to_chars(*prefetch as u64));
        *prefetch = MAX_PREFETCH_NEXT;
        return Some(ConfigWarning::new("cache.prefetch_next", string_from_chars(&m), Severity::Warning));
    }
    None
}

/// The names of the factory equalizer presets.
pub open spec fn is_factory_preset(name: Seq<char>) -> bool {
    name == "flat"@ || name == "darkwave_ebm"@ || name == "bass_boost"@ || name == "vocal"@
        || name == "acoustic"@ || name == "night_listening_warm"@ || name == "loudness"@ || name == "classical"@
}

fn factory_preset(name: &str) -> (r: bool)
    ensures
        r == is_factory_preset(name@),
{
    let c = chars_of(name);
    eq_str(&c, "flat") || eq_str(&c, "darkwave_ebm") || eq_str(&c, "bass_boost") || eq_str(&c, "vocal")
        || eq_str(&c, "acoustic") || eq_str(&c, "night_listening_warm") || eq_str(&c, "loudness")
        || eq_str(&c, "classical")
}

/// A custom preset's name after the collision rule: ` (custom)` appended to a factory name.
pub open spec fn custom_preset_name(name: Seq<char>) -> Seq<char> {
    if is_factory_preset(name) { name + " (custom)"@ } else { name }
}

/// The warnings for the custom preset names that collide with a factory one, in order.
pub open spec fn preset_warnings(names: Seq<Seq<char>>) -> Seq<ConfigWarningView>
    decreases names.len(),
{
    if names.len() == 0 {
        Seq::empty()
    } else if is_factory_preset(names.last()) {
        preset_warnings(names.drop_last()).push(warning("equalizer.custom_presets"@,
            "custom preset \""@ + names.last() + "\" collides with a factory preset; renamed to \""@
                + (names.last() + " (custom)"@) + "\""@, Severity::Warning))
    } else {
        preset_warnings(names.drop_last())
    }
}

/// Renames each custom equalizer preset named like a factory one to `<name> (custom)`,
/// warning for each.
pub fn dedup_eq_preset_names(names: &mut Vec<String>) -> (w: Vec<ConfigWarning>)
    ensures
        final(names)@.len() == old(names)@.len(),
        forall|k: int| 0 <= k < final(names)@.len() ==> (#[trigger] final(names)@[k])@ == custom_preset_name(old(names)@[k]@),
        warnings_view(w@) == preset_warnings(old(names)@.map_values(|s: String| s@)),
{
    let ghost orig = names@.map_values(|s: String| s@);
    let mut w: Vec<ConfigWarning> = Vec::new();
    let n = names.len();
    let mut i: usize = 0;
    while i < n
        invariant
            n == names@.len(),
            orig.len() == n,
            orig == old(names)@.map_values(|s: String| s@),
            i <= n,
            forall|k: int| 0 <= k < i ==> (#[trigger] names@[k])@ == custom_preset_name(orig[k]),
            forall|k: int| i <= k < n ==> (#[trigger] names@[k])@ == orig[k],
            warnings_view(w@) == preset_warnings(orig.take(i as int)),
        decreases n - i,
    {
        proof { assert(orig.take(i as int + 1).drop_last() =~= orig.take(i as int)); }
        let ghost wb = warnings_view(w@);
        if factory_preset(names[i].as_str()) {
            let old_name = names[i].clone();
            let mut renamed: Vec<char> = Vec::new();
            push_str(&mut renamed, old_name.as_str());
            push_str(&mut renamed, " (custom)");
            let mut m: Vec<char> = Vec::new();
            push_str(&mut m, "custom preset \"");
            push_str(&mut m, old_name.as_str());
            push_str(&mut m, "\" collides with a factory preset; renamed to \"");
            append_chars(&mut m, &renamed);
            push_str(&mut m, "\"");
            w.push(ConfigWarning::new("equalizer.custom_presets", string_from_chars(&m), Severity::Warning));
            assert(old_name@ == orig[i as int]);
            assert(renamed@ == orig[i as int] + " (custom)"@);
            assert(warnings_view(w@) =~= wb.push(w@.last()@));
            names.set(i, string_from_chars(&renamed));
        }
        i = i + 1;
    }
    proof { assert(orig.take(n as int) =~= orig); }
    w
}

/// The themes that ship with the program.
pub open spec fn is_builtin_theme(t: Seq<char>) -> bool {
    t == "amber_crt"@ || t == "cyberpunk_neon"@ || t == "darcula"@ || t == "default_terminal"@
        || t == "far_blue"@ || t == "green_crt"@ || t == "oled_black"@
}

/// Resets a theme that does not ship with the program to `default_terminal`, warning.
pub fn validate_theme(theme: &mut String) -> (w: Option<ConfigWarning>)
    ensures
        is_builtin_theme(old(theme)@) ==> final(theme)@ == old(theme)@ && w is None,
        !is_builtin_theme(old(theme)@) ==> final(theme)@ == "default_terminal"@ && gives(w, warning(
            "ui.theme"@, "unknown theme \""@ + old(theme)@ + "\"; using default_terminal"@, Severity::Warning)),
{
    let t = chars_of(theme.as_str());
    if eq_str(&t, "amber_crt") || eq_str(&t, "cyberpunk_neon") || eq_str(&t, "darcula") || eq_str(&t, "default_terminal")
        || eq_str(&t, "far_blue") || eq_str(&t, "green_crt") || eq_str(&t, "oled_black") {
        return None;
    }
    let mut m: Vec<char> = Vec::new();
    push_str(&mut m, "unknown theme \"");
    push_str(&mut m, theme.as_str());
    push_str(&mut m, "\"; using default_terminal");
    *theme = "default_terminal".to_string();
    Some(ConfigWarning::new("ui.theme", string_from_chars(&m), Severity::Warning))
}

/// The log levels the logger knows.
pub open spec fn is_log_level(level: Seq<char>) -> bool {
    let l = ascii_lower_seq(level);
    l == "trace"@ || l == "debug"@ || l == "info"@ || l == "warn"@ || l == "error"@
}

/// Resets an unknown log level (compared without regard to ASCII case) to `info`, warning.
pub fn validate_log_level(level: &mut String) -> (w: Option<ConfigWarning>)
    ensures
        is_log_level(old(level)@) ==> final(level)@ == old(level)@ && w is None,
        !is_log_level(old(level)@) ==> final(level)@ == "info"@ && gives(w, warning(
            "logging.level"@, "unknown log level \""@ + old(level)@ + "\"; using info"@, Severity::Warning)),
{
    let l = to_ascii_lower_chars(&chars_of(level.as_str()));
    if eq_str(&l, "trace") || eq_str(&l, "debug") || eq_str(&l, "info") || eq_str(&l, "warn") || eq_str(&l, "error") {
        return None;
    }
    let mut m: Vec<char> = Vec::new();
    push_str(&mut m, "unknown log level \"");
    push_str(&mut m, level.as_str());
    push_str(&mut m, "\"; using info");
    *level = "info".to_string();
    Some(ConfigWarning::new("logging.level", string_from_chars(&m), Severity::Warning))
}

// ------------------------------------------------------------------ device ids

/// `x` divided by 256, `j` times.
pub open spec fn div256(x: nat, j: nat) -> nat
    decreases j,
{
    if j == 0 { x } else { div256(x, (j - 1) as nat) / 256 }
}

/// The `n` low bytes of `x`, most significant first.
pub open spec fn be_bytes(x: nat, n: nat) -> Seq<nat>
    decreases n,
{
    if n == 0 { Seq::empty() } else { be_bytes(x / 256, (n - 1) as nat).push(x % 256) }
}

/// The sixteen bytes of a version-4 UUID made from `bits`: the version nibble set to 4 and the
/// variant bits to `10`.
pub open spec fn uuid_bytes(bits: u128) -> Seq<nat> {
    let b = be_bytes(bits as nat, 16);
    b.update(6, b[6] % 16 + 64).update(8, b[8] % 64 + 128)
}

/// A lowercase hex digit.
pub open spec fn hex_digit(d: nat) -> char {
    "0123456789abcdef"@[d as int]
}

/// The bytes as lowercase hex, two digits each.
pub open spec fn hex_of(bytes: Seq<nat>) -> Seq<char>
    decreases bytes.len(),
{
    if bytes.len() == 0 {
        Seq::empty()
    } else {
        hex_of(bytes.drop_last()) + seq![hex_digit(bytes.last() / 16), hex_digit(bytes.last() % 16)]
    }
}

/// The UUID `bits` make, in its usual `8-4-4-4-12` text form.
pub open spec fn uuid_text(bits: u128) -> Seq<char> {
    let h = hex_of(uuid_bytes(bits));
    h.subrange(0, 8) + "-"@ + h.subrange(8, 12) + "-"@ + h.subrange(12, 16) + "-"@ + h.subrange(16, 20) + "-"@
        + h.subrange(20, 32)
}

proof fn lemma_div256_shift(x: nat, j: nat)
    ensures
        div256(x / 256, j) == div256(x, j + 1),
    decreases j,
{
    if j > 0 {
        lemma_div256_shift(x, (j - 1) as nat);
        assert(div256(x / 256, j) == div256(x / 256, (j - 1) as nat) / 256);
        assert(div256(x, j + 1) == div256(x, j) / 256);
    } else {
        assert(div256(x, 1) == div256(x, 0) / 256);
    }
}

proof fn lemma_be_bytes_at(x: nat, n: nat, j: nat)
    requires
        j < n,
    ensures
        be_bytes(x, n).len() == n,
        be_bytes(x, n)[n - 1 - j] == div256(x, j) % 256,
    decreases n,
{
    lemma_be_bytes_len(x, n);
    if j > 0 {
        lemma_be_bytes_at(x / 256, (n - 1) as nat, (j - 1) as nat);
        lemma_div256_shift(x, (j - 1) as nat);
    }
}

proof fn lemma_be_bytes_len(x: nat, n: nat)
    ensures
        be_bytes(x, n).len() == n,
    decreases n,
{
    if n > 0 {
        lemma_be_bytes_len(x / 256, (n - 1) as nat);
    }
}

/// `rand::random::<u128>()`: 128 random bits.
#[verifier::external_body]
fn random_bits() -> (bits: u128) {
    rand::random()
}

/// The text of the version-4 UUID `bits` make.
pub fn uuid_from_bits(bits: u128) -> (r: String)
    ensures
        r@ == uuid_text(bits),
{
    let mut low_first: Vec<u64> = Vec::new();
    let mut x: u128 = bits;
    let mut j: usize = 0;
    while j < 16
        invariant
            j <= 16,
            x as nat == div256(bits as nat, j as nat),
            low_first@.len() == j,
            forall|k: int| 0 <= k < j ==> low_first@[k] as nat == div256(bits as nat, k as nat) % 256,
        decreases 16 - j,
    {
        low_first.push((x % 256) as u64);
        x = x / 256;
        j = j + 1;
    }
    let ghost bytes = uuid_bytes(bits);
    proof {
        lemma_be_bytes_len(bits as nat, 16);
        assert forall|k: int| 0 <= k < 16 implies #[trigger] be_bytes(bits as nat, 16)[k] == low_first@[15 - k] as nat by {
            lemma_be_bytes_at(bits as nat, 16, (15 - k) as nat);
        }
    }
    let digits = chars_of("0123456789abcdef");
    proof { reveal_strlit("0123456789abcdef"); }
    let mut hex: Vec<char> = Vec::new();
    let mut k: usize = 0;
    while k < 16
        invariant
            k <= 16,
            low_first@.len() == 16,
            digits@ == "0123456789abcdef"@,
            digits@.len() == 16,
            bytes == uuid_bytes(bits),
            bytes.len() == 16,
            be_bytes(bits as nat, 16).len() == 16,
            forall|q: int| 0 <= q < 16 ==> #[trigger] be_bytes(bits as nat, 16)[q] == low_first@[15 - q] as nat,
            forall|q: int| 0 <= q < 16 ==> bytes[q] < 256,
            hex@ == hex_of(bytes.take(k as int)),
        decreases 16 - k,
    {
        let raw = low_first[15 - k];
        assert(be_bytes(bits as nat, 16)[k as int] == raw as nat);
        let b: u64 = if k == 6 { raw % 16 + 64 } else if k == 8 { raw % 64 + 128 } else { raw };
        assert(b as nat == bytes[k as int]);
        let ghost before = hex@;
        hex.push(digits[(b / 16) as usize]);
        hex.push(digits[(b % 16) as usize]);
        proof {
            assert(bytes.take(k as int + 1).drop_last() =~= bytes.take(k as int));
            assert(hex@ =~= before + seq![hex_digit(bytes[k as int] / 16), hex_digit(bytes[k as int] % 16)]);
        }
        k = k + 1;
    }
    proof {
        assert(bytes.take(16) =~= bytes);
        lemma_hex_len(bytes);
    }
    let mut out: Vec<char> = Vec::new();
    append_range(&mut out, &hex, 0, 8);
    out.push('-');
    append_range(&mut out, &hex, 8, 12);
    out.push('-');
    append_range(&mut out, &hex, 12, 16);
    out.push('-');
    append_range(&mut out, &hex, 16, 20);
    out.push('-');
    append_range(&mut out, &hex, 20, 32);
    proof {
        reveal_strlit("-");
        assert("-"@ =~= seq!['-']);
        assert(out@ =~= uuid_text(bits));
    }
    string_from_chars(&out)
}

/// Appends `src[a..b]` to `out`.
fn append_range(out: &mut Vec<char>, src: &Vec<char>, a: usize, b: usize)
    requires
        a <= b <= src@.len(),
    ensures
        final(out)@ == old(out)@ + src@.subrange(a as int, b as int),
{
    let ghost start = out@;
    let mut i = a;
    while i < b
        invariant
            a <= i <= b,
            b <= src@.len(),
            out@ == start + src@.subrange(a as int, i as int),
        decreases b - i,
    {
        out.push(src[i]);
        assert(src@.subrange(a as int, i as int + 1) =~= src@.subrange(a as int, i as int).push(src@[i as int]));
        i = i + 1;
    }
}

proof fn lemma_hex_len(bytes: Seq<nat>)
    ensures
        hex_of(bytes).len() == 2 * bytes.len(),
    decreases bytes.len(),
{
    if bytes.len() > 0 {
        lemma_hex_len(bytes.drop_last());
    }
}

/// A fresh random version-4 UUID, as text.
pub fn generate_uuid_v4() -> (r: String)
    ensures
        exists|bits: u128| r@ == #[trigger] uuid_text(bits),
{
    let bits = random_bits();
    uuid_from_bits(bits)
}

/// Gives a server with no device id a fresh random one, saying so.
pub fn ensure_device_id(server: &mut ServerConfig) -> (w: Option<ConfigWarning>)
    ensures
        old(server)@.device_id.len() > 0 ==> final(server)@ == old(server)@ && w is None,
        old(server)@.device_id.len() == 0 ==> (exists|bits: u128| final(server)@ == (ServerConfigView {
            device_id: #[trigger] uuid_text(bits), ..old(server)@ }))
            && gives(w, warning("servers.device_id"@, "generated a new device id for server \""@ + old(server)@.id + "\""@, Severity::Info)),
{
    if chars_of(server.device_id.as_str()).len() > 0 {
        return None;
    }
    let bits = random_bits();
    server.device_id = uuid_from_bits(bits);
    let mut m: Vec<char> = Vec::new();
    push_str(&mut m, "generated a new device id for server \"");
    push_str(&mut m, server.id.as_str());
    push_str(&mut m, "\"");
    Some(ConfigWarning::new("servers.device_id", string_from_chars(&m), Severity::Info))
}

} // verus!
