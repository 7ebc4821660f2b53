//! Domains and slugs of sites and pages: canonical domains, preferred
//! domains and the redirects that follow from them.

use vstd::prelude::*;
use crate::text::{chars_of, same_str, string_of};

verus! {

/// The part of the configuration that domain handling reads.
pub struct Config {
    /// The main domain, starting with `.` (as in `.wikijump.com`).
    pub main_domain: String,
    /// The domain that files are served from, starting with `.`.
    pub files_domain: String,
}

/// `d` with a leading `.`, unless it has one already.
pub open spec fn with_dot(d: Seq<char>) -> Seq<char> {
    if d.len() > 0 && d[0] == '.' {
        d
    } else {
        seq!['.'] + d
    }
}

/// Prefixes a domain with `.`, so that subdomain checks and concatenation
/// are simple.
pub fn prefix_domain(domain: &mut String)
    ensures
        final(domain)@ == with_dot(old(domain)@),
{
    let n = domain.as_str().unicode_len();
    if n > 0 && domain.as_str().get_char(0) == '.' {
        return ;
    }
    let mut prefixed = String::from_str(".");
    prefixed.append(domain.as_str());
    proof {
        reveal_strlit(".");
        assert(prefixed@ =~= seq!['.'] + old(domain)@);
    }
    *domain = prefixed;
}

/// The site slug of a canonical domain: the domain must be the slug
/// followed by the main domain, and the slug must hold no `.` (only
/// subdomains one level deep are sites).
pub open spec fn canonical_slug(main: Seq<char>, domain: Seq<char>) -> Option<Seq<char>> {
    if domain.len() >= main.len() && domain.subrange(domain.len() - main.len(), domain.len() as int)
        == main {
        let rest = domain.subrange(0, domain.len() - main.len());
        if rest.contains('.') {
            None
        } else {
            Some(rest)
        }
    } else {
        None
    }
}

/// A canonical domain parses back to the slug it was built from.
pub proof fn lemma_canonical_round_trip(main: Seq<char>, slug: Seq<char>)
    requires
        !slug.contains('.'),
    ensures
        canonical_slug(main, slug + main) == Some(slug),
{
    let d = slug + main;
    assert(d.subrange(d.len() - main.len(), d.len() as int) =~= main);
    assert(d.subrange(0, d.len() - main.len()) =~= slug);
}

/// The slug is exactly what stands before the main domain.
pub proof fn lemma_canonical_slug_shape(main: Seq<char>, domain: Seq<char>)
    ensures
        canonical_slug(main, domain) matches Some(slug) ==> domain == slug + main && !slug.contains('.'),
{
    if canonical_slug(main, domain) is Some {
        let n = domain.len() - main.len();
        assert(domain =~= domain.subrange(0, n) + domain.subrange(n, domain.len() as int));
    }
}

/// The domain a site prefers: its custom domain if it has one, else its
/// canonical domain.
pub open spec fn preferred_domain(main: Seq<char>, slug: Seq<char>, custom: Option<Seq<char>>) -> Seq<char> {
    match custom {
        Some(d) => d,
        None => slug + main,
    }
}

pub open spec fn str_option_model(o: Option<&str>) -> Option<Seq<char>> {
    match o {
        Some(t) => Some(t@),
        None => None,
    }
}

/// Operations on site domains.
#[derive(Debug)]
pub struct DomainService;

impl DomainService {
    /// If `domain` is a canonical domain, its site slug.
    pub fn parse_canonical<'a>(config: &Config, domain: &'a str) -> (r: Option<&'a str>)
        ensures
            str_option_model(r) == canonical_slug(config.main_domain@, domain@),
    {
        let main = chars_of(config.main_domain.as_str());
        let d = chars_of(domain);
        let m = main.len();
        if d.len() < m {
            return None;
        }
        let n = d.len();
        let k = n - m;
        let mut i: usize = 0;
        while i < m
            invariant
                i <= m == main@.len(),
                k + m == n == d@.len(),
                main@ == config.main_domain@,
                d@ == domain@,
                d@.subrange(k as int, k + i) == main@.subrange(0, i as int),
            decreases m - i,
        {
            if d[k + i] != main[i] {
                assert(d@.subrange(k as int, d@.len() as int)[i as int] != main@[i as int]);
                return None;
            }
            i += 1;
            assert(d@.subrange(k as int, k + i) =~= d@.subrange(k as int, k + i - 1).push(d@[k + i - 1]));
            assert(main@.subrange(0, i as int) =~= main@.subrange(0, i - 1).push(main@[i - 1]));
        }
        assert(main@.subrange(0, m as int) =~= main@);
        let ghost rest = d@.subrange(0, k as int);
        let mut j: usize = 0;
        while j < k
            invariant
                j <= k,
                k + m == d@.len(),
                d@ == domain@,
                rest == d@.subrange(0, k as int),
                forall|x: int| 0 <= x < j ==> d@[x] != '.',
                d@.subrange(k as int, d@.len() as int) == main@,
                main@ == config.main_domain@,
            decreases k - j,
        {
            if d[j] == '.' {
                assert(rest[j as int] == '.');
                assert(rest.contains('.'));
                return None;
            }
            j += 1;
        }
        assert(!rest.contains('.')) by {
            if rest.contains('.') {
                let x = choose|x: int| 0 <= x < rest.len() && rest[x] == '.';
                assert(d@[x] == '.');
            }
        }
        Some(domain.substring_char(0, k))
    }

    /// The canonical domain of a site.
    pub fn get_canonical(config: &Config, site_slug: &str) -> (r: String)
        ensures
            r@ == site_slug@ + config.main_domain@,
    {
        let mut r = String::from_str(site_slug);
        r.append(config.main_domain.as_str());
        r
    }

    /// The domain a site prefers.
    pub fn domain_for_site(config: &Config, slug: &str, custom_domain: Option<&str>) -> (r: String)
        ensures
            r@ == preferred_domain(config.main_domain@, slug@, str_option_model(custom_domain)),
    {
        match custom_domain {
            Some(domain) => String::from_str(domain),
            None => DomainService::get_canonical(config, slug),
        }
    }
}

/// The normal form of a page slug, as `wikidot_normalize` computes it.
pub uninterp spec fn normalized(s: Seq<char>) -> Seq<char>;

/// Relies on `wikidot_normalize::normalize`: it rewrites the text in place
/// into its normal form, which depends on the text alone.
#[verifier::external_body]
pub(crate) fn normalize_in_place(text: &mut String)
    ensures
        final(text)@ == normalized(old(text)@),
{
    wikidot_normalize::normalize(text)
}

/// `s` with each `;` replaced by `:`.
pub open spec fn semicolons_to_colons(s: Seq<char>) -> Seq<char>
    decreases s.len(),
{
    if s.len() == 0 {
        seq![]
    } else {
        semicolons_to_colons(s.drop_last()).push(
            if s.last() == ';' {
                ':'
            } else {
                s.last()
            },
        )
    }
}

/// Fixes a common typo in page slugs: `;` written for `:`.
pub fn fix_slug_typos(slug: &str) -> (r: String)
    ensures
        r@ == semicolons_to_colons(slug@),
{
    let v = chars_of(slug);
    let mut fixed: Vec<char> = Vec::new();
    let mut i: usize = 0;
    while i < v.len()
        invariant
            i <= v@.len(),
            v@ == slug@,
            fixed@ == semicolons_to_colons(v@.subrange(0, i as int)),
        decreases v.len() - i,
    {
        let c = v[i];
        fixed.push(if c == ';' { ':' } else { c });
        assert(v@.subrange(0, i + 1).drop_last() =~= v@.subrange(0, i as int));
        i += 1;
        assert(fixed@ =~= semicolons_to_colons(v@.subrange(0, i as int)));
    }
    assert(v@.subrange(0, i as int) =~= slug@);
    string_of(&fixed, 0, fixed.len())
}

/// The redirect for a page slug, given its normal form: none when the slug
/// is already normal.
pub fn redirect_for_slug(slug: &str, target: String) -> (r: Option<String>)
    ensures
        match r {
            None => slug@ == target@,
            Some(t) => t@ == target@ && slug@ != target@,
        },
{
    if same_str(slug, target.as_str()) {
        None
    } else {
        Some(target)
    }
}

/// Decisions that page views make about redirects.
#[derive(Debug)]
pub struct ViewService;

impl ViewService {
    /// Where a request for `domain` should be redirected: the site's preferred
    /// domain, unless that is `domain` already.
    pub fn should_redirect_site(
        config: &Config,
        slug: &str,
        custom_domain: Option<&str>,
        domain: &str,
    ) -> (r: Option<String>)
        ensures
            match r {
                None => domain@ == preferred_domain(config.main_domain@, slug@, str_option_model(custom_domain)),
                Some(d) => d@ == preferred_domain(config.main_domain@, slug@, str_option_model(custom_domain))
                    && domain@ != d@,
            },
    {
        let preferred = DomainService::domain_for_site(config, slug, custom_domain);
        if same_str(domain, preferred.as_str()) {
            None
        } else {
            Some(preferred)
        }
    }

    /// The slug a page request should be redirected to, if the requested slug
    /// is not in normal form.
    pub fn should_redirect_page(slug: &str) -> (r: Option<String>)
        ensures
            match r {
                None => slug@ == normalized(semicolons_to_colons(slug@)),
                Some(t) => t@ == normalized(semicolons_to_colons(slug@)) && slug@ != t@,
            },
    {
        let mut target = fix_slug_typos(slug);
        normalize_in_place(&mut target);
        redirect_for_slug(slug, target)
    }
}

} // verus!
