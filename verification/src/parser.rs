//! The package extractor: given the text of a repository listing page, an
//! ordered chain of structural strategies (CSS selectors run by scraper) is
//! tried first; the first strategy that yields at least one package wins.
//! When every structural strategy yields nothing, a whole-document text scan
//! collects archive-filename tokens, deduplicated by exact filename with
//! first occurrences winning.

use vstd::prelude::*;
use vstd::string::StrSliceExecFns;
use vstd::string::StringExecFns;
use crate::decompose::{decompose_spec, extract_name_version, unknown_sent, apk_ext};
use crate::registry::{Package, PackageView};
use crate::text::{is_fname_char, fname_char, ends_with_seq, ends_with_str, str_eq};

verus! {

/// What scraper finds: the href targets of the elements matching a CSS
/// selector in a parsed HTML document, in document order.
pub uninterp spec fn hrefs_of(html: Seq<char>, selector: Seq<char>) -> Seq<Seq<char>>;

/// Relies on scraper's `Html::parse_document`, `Selector::parse`,
/// `Html::select` and `ElementRef::attr`: the value of the `href` attribute
/// of each element matching the selector, in document order, skipping
/// elements without one; a selector that does not parse matches nothing. The
/// result is a function of the two strings alone.
#[verifier::external_body]
fn select_hrefs(html: &str, selector: &str) -> (r: Vec<String>)
    ensures
        r.deep_view() == hrefs_of(html@, selector@),
{
    let document = scraper::Html::parse_document(html);
    match scraper::Selector::parse(selector) {
        Ok(sel) => document.select(&sel).filter_map(|element| element.attr("href")).map(
            |href| href.to_string(),
        ).collect(),
        Err(_) => Vec::new(),
    }
}

/// The package built from one archive filename: name and version from the
/// decomposer, unknown size and date.
pub open spec fn package_of(filename: Seq<char>) -> PackageView {
    PackageView {
        name: decompose_spec(filename).0,
        version: decompose_spec(filename).1,
        size: unknown_sent(),
        date: unknown_sent(),
        filename: filename,
    }
}

/// Builds the package record for one anchor: the target is the filename; the
/// link text plays no part.
pub fn parse_package_from_link(_link_text: &str, href: &str) -> (p: Package)
    ensures
        p@ == package_of(href@),
{
    let filename = String::from_str(href);
    let (name, version) = extract_name_version(href);
    proof {
        reveal_strlit("unknown");
        assert("unknown"@ =~= unknown_sent());
    }
    Package {
        name,
        version,
        size: String::from_str("unknown"),
        date: String::from_str("unknown"),
        filename,
    }
}

/// The packages one strategy yields: the targets ending in the archive
/// extension, decomposed, in order.
pub open spec fn packages_from_hrefs(hrefs: Seq<Seq<char>>) -> Seq<PackageView>
    decreases hrefs.len(),
{
    if hrefs.len() == 0 {
        Seq::empty()
    } else {
        let rest = packages_from_hrefs(hrefs.drop_last());
        if ends_with_seq(hrefs.last(), apk_ext()) {
            rest.push(package_of(hrefs.last()))
        } else {
            rest
        }
    }
}

/// Turns one strategy's anchor targets into packages.
fn packages_from_links(hrefs: &Vec<String>) -> (r: Vec<Package>)
    ensures
        r.deep_view() == packages_from_hrefs(hrefs.deep_view()),
{
    proof {
        reveal_strlit(".apk");
        assert(".apk"@ =~= apk_ext());
    }
    let ghost hd = hrefs.deep_view();
    let mut out: Vec<Package> = Vec::new();
    let ghost mut gp: Seq<PackageView> = Seq::empty();
    let mut i: usize = 0;
    assert(hd.take(0) =~= Seq::<Seq<char>>::empty());
    while i < hrefs.len()
        invariant
            i <= hrefs@.len(),
            hd == hrefs.deep_view(),
            gp == packages_from_hrefs(hd.take(i as int)),
            out@.len() == gp.len(),
            forall|k: int| 0 <= k < out@.len() ==> (#[trigger] out@[k])@ == gp[k],
        decreases hrefs@.len() - i,
    {
        proof {
            reveal_strlit(".apk");
            assert(".apk"@ =~= apk_ext());
            assert(hd[i as int] == hrefs@[i as int]@);
            assert(hd.take(i + 1).drop_last() =~= hd.take(i as int));
            assert(hd.take(i + 1).last() == hd[i as int]);
        }
        if ends_with_str(hrefs[i].as_str(), ".apk") {
            let p = parse_package_from_link("", hrefs[i].as_str());
            out.push(p);
            proof {
                gp = gp.push(package_of(hd[i as int]));
            }
        }
        i = i + 1;
    }
    assert(hd.take(hrefs@.len() as int) =~= hd);
    assert(out.deep_view() =~= gp) by {
        assert(forall|k: int|
            0 <= k < out@.len() ==> (#[trigger] out.deep_view()[k]) == out@[k]@);
    }
    out
}

/// The end of the run of filename characters starting at `k`.
pub open spec fn run_end(h: Seq<char>, k: int) -> int
    decreases h.len() - k
        when 0 <= k <= h.len()
{
    if k < h.len() && is_fname_char(h[k]) {
        run_end(h, k + 1)
    } else {
        k
    }
}

/// A run of filename characters reaches from `k` to its end.
proof fn lemma_run_end(h: Seq<char>, k: int)
    requires
        0 <= k <= h.len(),
    ensures
        k <= run_end(h, k) <= h.len(),
        forall|p: int| k <= p < run_end(h, k) ==> is_fname_char(h[p]),
        run_end(h, k) == h.len() || !is_fname_char(h[run_end(h, k)]),
    decreases h.len() - k,
{
    if k < h.len() && is_fname_char(h[k]) {
        lemma_run_end(h, k + 1);
    }
}

/// A maximal run of filename characters starts at `k`.
pub open spec fn is_run_start(h: Seq<char>, k: int) -> bool {
    is_fname_char(h[k]) && (k == 0 || !is_fname_char(h[k - 1]))
}

/// The maximal run starting at `k` is an archive-filename token: more than
/// four characters, ending in the archive extension.
pub open spec fn token_at(h: Seq<char>, k: int) -> bool {
    is_run_start(h, k) && run_end(h, k) - k > 4 && ends_with_seq(
        h.subrange(k, run_end(h, k)),
        apk_ext(),
    )
}

/// All archive-filename tokens of `h` from position `k` on, in order of
/// appearance, duplicates kept.
pub open spec fn scan_tokens(h: Seq<char>, k: int) -> Seq<Seq<char>>
    decreases h.len() - k
        when 0 <= k
{
    if k >= h.len() {
        Seq::empty()
    } else {
        let rest = scan_tokens(h, k + 1);
        if token_at(h, k) {
            seq![h.subrange(k, run_end(h, k))] + rest
        } else {
            rest
        }
    }
}

/// `s` with repeats of earlier elements removed; elements of `seen` are
/// dropped altogether.
pub open spec fn dedup_from(s: Seq<Seq<char>>, seen: Set<Seq<char>>) -> Seq<Seq<char>>
    decreases s.len(),
{
    if s.len() == 0 {
        Seq::empty()
    } else if seen.contains(s[0]) {
        dedup_from(s.drop_first(), seen)
    } else {
        seq![s[0]] + dedup_from(s.drop_first(), seen.insert(s[0]))
    }
}

/// The filenames of the text scan: tokens in order of first appearance.
pub open spec fn fallback_filenames(h: Seq<char>) -> Seq<Seq<char>> {
    dedup_from(scan_tokens(h, 0), Set::empty())
}

/// The packages of the text scan.
pub open spec fn fallback_spec(h: Seq<char>) -> Seq<PackageView> {
    fallback_filenames(h).map_values(|f: Seq<char>| package_of(f))
}

/// Whether some entry of `v` has exactly these characters.
fn vec_has_str(v: &Vec<String>, s: &str) -> (r: bool)
    ensures
        r == exists|j: int| 0 <= j < v@.len() && (#[trigger] v@[j])@ == s@,
{
    let mut i: usize = 0;
    while i < v.len()
        invariant
            i <= v@.len(),
            forall|j: int| 0 <= j < i ==> (#[trigger] v@[j])@ != s@,
        decreases v@.len() - i,
    {
        if str_eq(v[i].as_str(), s) {
            return true;
        }
        i = i + 1;
    }
    false
}

/// Collects the archive-filename tokens of the text, in order, duplicates
/// kept.
fn collect_tokens(html: &str) -> (r: Vec<String>)
    ensures
        r.deep_view() == scan_tokens(html@, 0),
{
    proof {
        reveal_strlit(".apk");
        assert(".apk"@ =~= apk_ext());
    }
    let n = html.unicode_len();
    let mut out: Vec<String> = Vec::new();
    let ghost mut gt: Seq<Seq<char>> = Seq::empty();
    let mut i: usize = 0;
    while i < n
        invariant
            i <= n,
            n == html@.len(),
            scan_tokens(html@, 0) == gt + scan_tokens(html@, i as int),
            out@.len() == gt.len(),
            forall|k: int| 0 <= k < out@.len() ==> (#[trigger] out@[k])@ == gt[k],
        decreases n - i,
    {
        proof {
            reveal_strlit(".apk");
            assert(".apk"@ =~= apk_ext());
        }
        let start = fname_char(html.get_char(i)) && (i == 0 || !fname_char(html.get_char(i - 1)));
        if start {
            let mut j: usize = i;
            while j < n && fname_char(html.get_char(j))
                invariant
                    i <= j <= n,
                    n == html@.len(),
                    run_end(html@, i as int) == run_end(html@, j as int),
                decreases n - j,
            {
                j = j + 1;
            }
            assert(j == run_end(html@, i as int));
            if j - i > 4 {
                let tok = html.substring_char(i, j);
                if ends_with_str(tok, ".apk") {
                    assert(token_at(html@, i as int));
                    out.push(String::from_str(tok));
                    proof {
                        gt = gt.push(html@.subrange(i as int, j as int));
                        assert(gt + scan_tokens(html@, i + 1) =~= gt.drop_last() + (seq![
                            html@.subrange(i as int, j as int)] + scan_tokens(html@, i + 1)));
                    }
                } else {
                    assert(!token_at(html@, i as int));
                }
            } else {
                assert(!token_at(html@, i as int));
            }
        } else {
            assert(!token_at(html@, i as int)) by {
                if i > 0 && is_fname_char(html@[i as int]) {
                    assert(is_fname_char(html@[i as int - 1]));
                }
            }
        }
        i = i + 1;
    }
    assert(out.deep_view() =~= gt) by {
        assert(forall|k: int|
            0 <= k < out@.len() ==> (#[trigger] out.deep_view()[k]) == out@[k]@);
    }
    out
}

/// The text-scan fallback: every archive-filename token of the raw markup,
/// first occurrences winning, decomposed into packages in order.
pub fn fallback_packages(html: &str) -> (r: Vec<Package>)
    ensures
        r.deep_view() == fallback_spec(html@),
{
    let toks = collect_tokens(html);
    let ghost ts = toks.deep_view();
    let mut names: Vec<String> = Vec::new();
    let ghost mut seen: Set<Seq<char>> = Set::empty();
    let ghost mut gn: Seq<Seq<char>> = Seq::empty();
    let mut i: usize = 0;
    proof {
        assert(ts.skip(0) =~= ts);
        assert(gn + dedup_from(ts, Set::empty()) =~= dedup_from(ts, Set::empty()));
    }
    while i < toks.len()
        invariant
            i <= toks@.len(),
            ts == toks.deep_view(),
            fallback_filenames(html@) == gn + dedup_from(ts.skip(i as int), seen),
            forall|x: Seq<char>|
                #[trigger] seen.contains(x) <==> exists|j: int|
                    0 <= j < names@.len() && (#[trigger] names@[j])@ == x,
            gn.len() == names@.len(),
            forall|k: int| 0 <= k < names@.len() ==> (#[trigger] names@[k])@ == gn[k],
        decreases toks@.len() - i,
    {
        proof {
            assert(ts[i as int] == toks@[i as int]@);
            assert(ts.skip(i as int).drop_first() =~= ts.skip(i + 1));
            assert(ts.skip(i as int)[0] == ts[i as int]);
        }
        let tok = &toks[i];
        let present = vec_has_str(&names, tok.as_str());
        if !present {
            assert(!seen.contains(ts[i as int]));
            let ghost names0 = names@;
            let ghost seen0 = seen;
            names.push(tok.clone());
            proof {
                seen = seen.insert(ts[i as int]);
                gn = gn.push(ts[i as int]);
                assert(names@[names0.len() as int]@ == ts[i as int]);
                assert forall|x: Seq<char>| #[trigger] seen.contains(x) implies exists|j: int|
                    0 <= j < names@.len() && (#[trigger] names@[j])@ == x by {
                    if x == ts[i as int] {
                        assert(names@[names@.len() - 1]@ == x);
                    } else {
                        assert(seen0.contains(x));
                        let j = choose|j: int| 0 <= j < names0.len() && (#[trigger] names0[j])@
                            == x;
                        assert(names@[j]@ == x);
                    }
                }
                assert forall|j: int| 0 <= j < names@.len() implies seen.contains(
                    (#[trigger] names@[j])@,
                ) by {
                    if j < names0.len() {
                        assert(names0[j]@ == names@[j]@);
                        assert(seen0.contains(names0[j]@));
                    }
                }
                assert(gn + dedup_from(ts.skip(i + 1), seen) =~= gn.drop_last() + (seq![
                    ts[i as int]] + dedup_from(ts.skip(i + 1), seen)));
            }
        } else {
            assert(seen.contains(ts[i as int]));
        }
        i = i + 1;
    }
    assert(ts.skip(toks@.len() as int) =~= Seq::<Seq<char>>::empty());
    assert(fallback_filenames(html@) =~= gn);
    // Decompose each distinct filename in order.
    let mut out: Vec<Package> = Vec::new();
    let mut k: usize = 0;
    while k < names.len()
        invariant
            k <= names@.len(),
            forall|j: int| 0 <= j < names@.len() ==> (#[trigger] names@[j])@ == gn[j],
            gn.len() == names@.len(),
            out@.len() == k,
            forall|j: int| 0 <= j < k ==> (#[trigger] out@[j])@ == package_of(gn[j]),
        decreases names@.len() - k,
    {
        let p = parse_package_from_link("", names[k].as_str());
        out.push(p);
        k = k + 1;
    }
    assert(out.deep_view() =~= fallback_spec(html@)) by {
        assert(forall|j: int|
            0 <= j < out@.len() ==> (#[trigger] out.deep_view()[j]) == out@[j]@);
        assert(fallback_filenames(html@) == gn);
    }
    out
}

/// The packages the extractor returns: the first structural strategy that
/// yields any package wins; when none yields any, the text scan of the raw
/// markup decides.
pub open spec fn extract_spec(html: Seq<char>) -> Seq<PackageView> {
    let p1 = packages_from_hrefs(hrefs_of(html, "pre a"@));
    let p2 = packages_from_hrefs(hrefs_of(html, "a[href$='.apk']"@));
    let p3 = packages_from_hrefs(hrefs_of(html, "tr td a"@));
    if p1.len() > 0 {
        p1
    } else if p2.len() > 0 {
        p2
    } else if p3.len() > 0 {
        p3
    } else {
        fallback_spec(html)
    }
}

/// Extracts the packages a listing page advertises. Never fails: a page
/// without packages yields an empty list.
pub fn parse_packages(html: &str) -> (r: Vec<Package>)
    ensures
        r.deep_view() == extract_spec(html@),
{
    let h1 = select_hrefs(html, "pre a");
    let p1 = packages_from_links(&h1);
    if p1.len() > 0 {
        return p1;
    }
    let h2 = select_hrefs(html, "a[href$='.apk']");
    let p2 = packages_from_links(&h2);
    if p2.len() > 0 {
        return p2;
    }
    let h3 = select_hrefs(html, "tr td a");
    let p3 = packages_from_links(&h3);
    if p3.len() > 0 {
        return p3;
    }
    fallback_packages(html)
}

/// Law: when the first structural strategy yields packages while a later one
/// also would, the extractor returns exactly the first strategy's packages.
pub proof fn lemma_strategy_priority(html: Seq<char>)
    requires
        packages_from_hrefs(hrefs_of(html, "pre a"@)).len() > 0,
        packages_from_hrefs(hrefs_of(html, "a[href$='.apk']"@)).len() > 0 || packages_from_hrefs(
            hrefs_of(html, "tr td a"@),
        ).len() > 0,
    ensures
        extract_spec(html) == packages_from_hrefs(hrefs_of(html, "pre a"@)),
{
}

/// A token somewhere in the text makes the scan nonempty.
proof fn lemma_scan_nonempty(h: Seq<char>, k: int, i: int)
    requires
        0 <= k <= i < h.len(),
        token_at(h, i),
    ensures
        scan_tokens(h, k).len() > 0,
    decreases i - k,
{
    if k < i {
        lemma_scan_nonempty(h, k + 1, i);
    }
}

/// Deduplication keeps elements distinct and outside `seen`.
proof fn lemma_dedup_distinct(s: Seq<Seq<char>>, seen: Set<Seq<char>>)
    ensures
        forall|a: int|
            0 <= a < dedup_from(s, seen).len() ==> !seen.contains(#[trigger] dedup_from(s, seen)[a]),
        forall|a: int, b: int|
            0 <= a < b < dedup_from(s, seen).len() ==> dedup_from(s, seen)[a] != dedup_from(
                s,
                seen,
            )[b],
    decreases s.len(),
{
    if s.len() > 0 {
        let s0 = s[0];
        let d = dedup_from(s, seen);
        if seen.contains(s0) {
            lemma_dedup_distinct(s.drop_first(), seen);
            assert(d == dedup_from(s.drop_first(), seen));
            assert forall|a: int| 0 <= a < d.len() implies !seen.contains(#[trigger] d[a]) by {
                assert(d[a] == dedup_from(s.drop_first(), seen)[a]);
            }
            assert forall|a: int, b: int| 0 <= a < b < d.len() implies d[a] != d[b] by {
                assert(d[a] == dedup_from(s.drop_first(), seen)[a]);
                assert(d[b] == dedup_from(s.drop_first(), seen)[b]);
            }
        } else {
            let rest = dedup_from(s.drop_first(), seen.insert(s0));
            lemma_dedup_distinct(s.drop_first(), seen.insert(s0));
            assert(d == seq![s0] + rest);
            assert forall|a: int| 0 <= a < d.len() implies !seen.contains(#[trigger] d[a]) by {
                if a > 0 {
                    assert(d[a] == rest[a - 1]);
                    assert(!seen.insert(s0).contains(rest[a - 1]));
                }
            }
            assert forall|a: int, b: int| 0 <= a < b < d.len() implies d[a] != d[b] by {
                assert(d[b] == rest[b - 1]);
                assert(!seen.insert(s0).contains(rest[b - 1]));
                if a > 0 {
                    assert(d[a] == rest[a - 1]);
                }
            }
        }
    }
}

/// Law: on a document where every structural strategy yields nothing but
/// whose raw text carries an archive-filename token, the extractor falls
/// back to the text scan, whose result is nonempty and holds no two packages
/// with the same filename.
pub proof fn lemma_fallback_used(html: Seq<char>, i: int)
    requires
        packages_from_hrefs(hrefs_of(html, "pre a"@)).len() == 0,
        packages_from_hrefs(hrefs_of(html, "a[href$='.apk']"@)).len() == 0,
        packages_from_hrefs(hrefs_of(html, "tr td a"@)).len() == 0,
        0 <= i < html.len(),
        token_at(html, i),
    ensures
        extract_spec(html) == fallback_spec(html),
        extract_spec(html).len() > 0,
        forall|a: int, b: int|
            0 <= a < b < extract_spec(html).len() ==> (#[trigger] extract_spec(html)[a]).filename
                != (#[trigger] extract_spec(html)[b]).filename,
{
    lemma_scan_nonempty(html, 0, i);
    let toks = scan_tokens(html, 0);
    assert(!Set::<Seq<char>>::empty().contains(toks[0]));
    assert(fallback_filenames(html).len() > 0);
    lemma_dedup_distinct(toks, Set::empty());
    let fb = fallback_spec(html);
    assert(fb.len() == fallback_filenames(html).len());
    assert forall|a: int, b: int| 0 <= a < b < fb.len() implies (#[trigger] fb[a]).filename != (
    #[trigger] fb[b]).filename by {
        assert(fb[a].filename == fallback_filenames(html)[a]);
        assert(fb[b].filename == fallback_filenames(html)[b]);
    }
}

} // verus!
