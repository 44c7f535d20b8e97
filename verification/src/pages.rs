//! The documents the service fills in: a project's capabilities document and
//! the Leaflet viewer page, and the domain they name.

use vstd::prelude::*;
use crate::text::{
    lemma_no_occurrence_across_end, lemma_replace_absent, lemma_replace_concat,
    lemma_replace_keeps_last, occurs_at, occurs_in, replaced, replace_all,
};

verus! {

/// `{WMTS_DOMAIN}` in a capabilities document replaced by the domain.
pub open spec fn capabilities_text(document: Seq<char>, domain: Seq<char>) -> Seq<char> {
    replaced(document, "{WMTS_DOMAIN}"@, domain)
}

/// Fills the domain into a project's capabilities document.
pub fn fill_capabilities(document: &str, domain: &str) -> (res: String)
    ensures
        res@ == capabilities_text(document@, domain@),
{
    replace_all(document, "{WMTS_DOMAIN}", domain)
}

/// A capabilities document without the `{WMTS_DOMAIN}` placeholder is served
/// as it is stored.
pub proof fn lemma_capabilities_without_placeholder(document: Seq<char>, domain: Seq<char>)
    requires
        !occurs_in(document, "{WMTS_DOMAIN}"@),
    ensures
        capabilities_text(document, domain) == document,
{
    reveal_strlit("{WMTS_DOMAIN}");
    lemma_replace_absent(document, "{WMTS_DOMAIN}"@, domain);
}

/// Every `{WMTS_DOMAIN}` of a capabilities document is filled, not only the
/// first: a document cut after a character that the placeholder does not
/// hold fills as its two parts filled and joined.
pub proof fn lemma_capabilities_pieces(d1: Seq<char>, d2: Seq<char>, domain: Seq<char>)
    requires
        d1.len() > 0,
        !"{WMTS_DOMAIN}"@.contains(d1.last()),
    ensures
        capabilities_text(d1 + d2, domain) == capabilities_text(d1, domain) + capabilities_text(
            d2,
            domain,
        ),
{
    reveal_strlit("{WMTS_DOMAIN}");
    lemma_no_occurrence_across_end(d1, d2, "{WMTS_DOMAIN}"@);
    lemma_replace_concat(d1, d2, "{WMTS_DOMAIN}"@, domain);
}

/// The domain under which the service is reached: the configured one, else
/// `{scheme}://{host}` of the request.
pub open spec fn domain_text(configured: Option<Seq<char>>, scheme: Seq<char>, host: Seq<char>) -> Seq<char> {
    match configured {
        Some(d) => d,
        None => scheme + "://"@ + host,
    }
}

/// Without a configured domain the service names itself by the request's
/// own scheme, then `://`, then the host; a configured domain is used as it
/// is.
pub proof fn lemma_domain_parts(configured: Option<Seq<char>>, scheme: Seq<char>, host: Seq<char>)
    ensures
        configured matches Some(d) ==> domain_text(configured, scheme, host) == d,
        configured is None ==> {
            let r = domain_text(configured, scheme, host);
            &&& r.len() == scheme.len() + 3 + host.len()
            &&& r.take(scheme.len() as int) == scheme
            &&& r.subrange(scheme.len() as int, (scheme.len() + 3) as int) == seq![':', '/', '/']
            &&& r.skip((scheme.len() + 3) as int) == host
        },
{
    reveal_strlit("://");
    if configured is None {
        let r = domain_text(configured, scheme, host);
        assert(r.take(scheme.len() as int) =~= scheme);
        assert(r.subrange(scheme.len() as int, (scheme.len() + 3) as int) =~= seq![':', '/', '/']);
        assert(r.skip((scheme.len() + 3) as int) =~= host);
    }
}

/// The domain under which the service is reached, given the value of
/// `WMTS_DOMAIN` if it is set and the scheme and host of the request.
pub fn service_domain(configured: Option<String>, scheme: &str, host: &str) -> (res: String)
    ensures
        res@ == domain_text(
            match configured {
                Some(d) => Some(d@),
                None => None,
            },
            scheme@,
            host@,
        ),
        configured is None ==> res@ == scheme@ + seq![':', '/', '/'] + host@,
{
    proof {
        reveal_strlit("://");
    }
    match configured {
        Some(d) => d,
        None => {
            let mut s = String::from_str(scheme);
            s.append("://");
            s.append(host);
            s
        },
    }
}

/// The Leaflet page: `{LAYER}`, then `{PROJECT}`, then `{WMTS_DOMAIN}` of the
/// page template replaced.
pub open spec fn leaflet_text(template: Seq<char>, layer: Seq<char>, project: Seq<char>, domain: Seq<char>) -> Seq<char> {
    replaced(
        replaced(replaced(template, "{LAYER}"@, layer), "{PROJECT}"@, project),
        "{WMTS_DOMAIN}"@,
        domain,
    )
}

/// Fills the Leaflet page template for one layer of a project.
pub fn leaflet_page(template: &str, layer: &str, project: &str, domain: &str) -> (res: String)
    ensures
        res@ == leaflet_text(template@, layer@, project@, domain@),
{
    let a = replace_all(template, "{LAYER}", layer);
    let b = replace_all(a.as_str(), "{PROJECT}", project);
    replace_all(b.as_str(), "{WMTS_DOMAIN}", domain)
}

/// Filling the page works piece by piece: a template cut after a character
/// that no placeholder holds fills as its two parts filled and joined. So
/// every placeholder of the page is filled, each occurrence of it, not only
/// the first.
pub proof fn lemma_leaflet_pieces(
    t1: Seq<char>,
    t2: Seq<char>,
    layer: Seq<char>,
    project: Seq<char>,
    domain: Seq<char>,
)
    requires
        t1.len() > 0,
        !"{LAYER}"@.contains(t1.last()),
        !"{PROJECT}"@.contains(t1.last()),
        !"{WMTS_DOMAIN}"@.contains(t1.last()),
    ensures
        leaflet_text(t1 + t2, layer, project, domain) == leaflet_text(t1, layer, project, domain)
            + leaflet_text(t2, layer, project, domain),
{
    reveal_strlit("{LAYER}");
    reveal_strlit("{PROJECT}");
    reveal_strlit("{WMTS_DOMAIN}");
    let pl = "{LAYER}"@;
    let pp = "{PROJECT}"@;
    let pd = "{WMTS_DOMAIN}"@;
    lemma_no_occurrence_across_end(t1, t2, pl);
    lemma_replace_concat(t1, t2, pl, layer);
    lemma_replace_keeps_last(t1, pl, layer);
    let a1 = replaced(t1, pl, layer);
    let a2 = replaced(t2, pl, layer);
    lemma_no_occurrence_across_end(a1, a2, pp);
    lemma_replace_concat(a1, a2, pp, project);
    lemma_replace_keeps_last(a1, pp, project);
    let b1 = replaced(a1, pp, project);
    let b2 = replaced(a2, pp, project);
    lemma_no_occurrence_across_end(b1, b2, pd);
    lemma_replace_concat(b1, b2, pd, domain);
}

/// Neither `{LAYER}` nor `{PROJECT}` stands inside `{WMTS_DOMAIN}`.
proof fn lemma_domain_placeholder_holds_no_other(pat: Seq<char>)
    requires
        pat == "{LAYER}"@ || pat == "{PROJECT}"@,
    ensures
        !occurs_in("{WMTS_DOMAIN}"@, pat),
{
    reveal_strlit("{LAYER}");
    reveal_strlit("{PROJECT}");
    reveal_strlit("{WMTS_DOMAIN}");
    let pd = "{WMTS_DOMAIN}"@;
    assert forall|i: int| !occurs_at(pd, pat, i) by {
        if occurs_at(pd, pat, i) {
            let w = pd.subrange(i, i + pat.len());
            assert(w[0] == pat[0] && w[1] == pat[1]);
            assert(pd[i] == '{');
            if i == 0 {
                assert(pd[1] == 'W');
            } else if i == 1 {
            } else if i == 2 {
            } else if i == 3 {
            } else if i == 4 {
            } else if i == 5 {
            } else {
                assert(i == 6);
            }
        }
    }
}

/// A page that is nothing but `{WMTS_DOMAIN}` fills to the domain, whatever
/// the layer and project.
pub proof fn lemma_leaflet_domain_placeholder(layer: Seq<char>, project: Seq<char>, domain: Seq<char>)
    ensures
        leaflet_text("{WMTS_DOMAIN}"@, layer, project, domain) == domain,
{
    reveal_strlit("{LAYER}");
    reveal_strlit("{PROJECT}");
    reveal_strlit("{WMTS_DOMAIN}");
    let pd = "{WMTS_DOMAIN}"@;
    lemma_domain_placeholder_holds_no_other("{LAYER}"@);
    lemma_replace_absent(pd, "{LAYER}"@, layer);
    lemma_domain_placeholder_holds_no_other("{PROJECT}"@);
    lemma_replace_absent(pd, "{PROJECT}"@, project);
    assert(pd.take(pd.len() as int) =~= pd);
    assert(pd.skip(pd.len() as int) =~= Seq::<char>::empty());
    assert(replaced(Seq::<char>::empty(), pd, domain) == Seq::<char>::empty());
    assert(domain + Seq::<char>::empty() =~= domain);
}

/// The value is given and not empty.
pub open spec fn given_text(v: Option<&str>) -> bool {
    match v {
        Some(t) => t@.len() > 0,
        None => false,
    }
}

/// The project and layer of a Leaflet page asked for by query parameters:
/// both must be given and not empty.
pub fn leaflet_target(project: Option<&str>, layer: Option<&str>) -> (res: Option<(String, String)>)
    ensures
        res is Some <==> given_text(project) && given_text(layer),
        res matches Some(pl) ==> pl.0@ == project.unwrap()@ && pl.1@ == layer.unwrap()@,
{
    match (project, layer) {
        (Some(p), Some(l)) => {
            if p.unicode_len() > 0 && l.unicode_len() > 0 {
                Some((String::from_str(p), String::from_str(l)))
            } else {
                None
            }
        },
        _ => None,
    }
}

} // verus!
