//! The resolver and the download decision. Resolution scans every package of
//! every repository in discovery order, case-insensitively: an exact name
//! match is put at the front of the results (so exact matches end up in
//! reverse discovery order among themselves — kept for compatibility), a name
//! that merely contains the query is appended. The download decision picks
//! the first candidate and builds its url.

use vstd::prelude::*;
use vstd::string::StringExecFns;
use crate::registry::{Package, PackageView, Repository, RepositoryView, PackageRegistry};
use crate::text::{contains_seq, contains_str, str_eq};

verus! {

/// What `str::to_lowercase` returns for given characters.
pub uninterp spec fn lower_of(s: Seq<char>) -> Seq<char>;

/// Relies on `str::to_lowercase`: the result is a function of the characters
/// alone.
#[verifier::external_body]
fn lowercase(s: &str) -> (r: String)
    ensures
        r@ == lower_of(s@),
{
    s.to_lowercase()
}

/// An exact match against the lowercased query `ql`.
pub open spec fn is_exact(p: PackageView, ql: Seq<char>) -> bool {
    lower_of(p.name) == ql
}

/// A partial match against the lowercased query `ql`: not exact, but the
/// lowercased name contains the query.
pub open spec fn is_partial(p: PackageView, ql: Seq<char>) -> bool {
    !is_exact(p, ql) && contains_seq(lower_of(p.name), ql)
}

/// Every (repository, package) pair of the registry, repository by
/// repository, packages in discovery order.
pub open spec fn all_pairs(repos: Seq<RepositoryView>) -> Seq<(RepositoryView, PackageView)>
    decreases repos.len(),
{
    if repos.len() == 0 {
        Seq::empty()
    } else {
        all_pairs(repos.drop_last()) + pairs_of_repo(repos.last())
    }
}

/// The pairs one repository contributes.
pub open spec fn pairs_of_repo(r: RepositoryView) -> Seq<(RepositoryView, PackageView)> {
    r.packages.map_values(|p: PackageView| (r, p))
}

/// One resolution step: an exact match goes to the front, a partial match is
/// appended, anything else is dropped.
pub open spec fn search_step(
    acc: Seq<(RepositoryView, PackageView)>,
    pair: (RepositoryView, PackageView),
    ql: Seq<char>,
) -> Seq<(RepositoryView, PackageView)> {
    if is_exact(pair.1, ql) {
        seq![pair] + acc
    } else if is_partial(pair.1, ql) {
        acc.push(pair)
    } else {
        acc
    }
}

/// The accumulated result of scanning `pairs` in order, starting from `acc`.
pub open spec fn search_fold(
    acc: Seq<(RepositoryView, PackageView)>,
    pairs: Seq<(RepositoryView, PackageView)>,
    ql: Seq<char>,
) -> Seq<(RepositoryView, PackageView)>
    decreases pairs.len(),
{
    if pairs.len() == 0 {
        acc
    } else {
        search_fold(search_step(acc, pairs[0], ql), pairs.drop_first(), ql)
    }
}

/// What resolution returns for a registry and a query.
pub open spec fn search_spec(repos: Seq<RepositoryView>, q: Seq<char>) -> Seq<
    (RepositoryView, PackageView),
> {
    search_fold(Seq::empty(), all_pairs(repos), lower_of(q))
}

/// The models of a vector of borrowed (repository, package) pairs.
pub open spec fn pairs_view(v: Seq<(&Repository, &Package)>) -> Seq<
    (RepositoryView, PackageView),
> {
    v.map_values(|t: (&Repository, &Package)| (t.0@, t.1@))
}

/// Folding one more pair steps the accumulated result once.
proof fn lemma_fold_snoc(
    acc: Seq<(RepositoryView, PackageView)>,
    s: Seq<(RepositoryView, PackageView)>,
    x: (RepositoryView, PackageView),
    ql: Seq<char>,
)
    ensures
        search_fold(acc, s.push(x), ql) == search_step(search_fold(acc, s, ql), x, ql),
    decreases s.len(),
{
    if s.len() == 0 {
        assert(s.push(x).drop_first() =~= s);
        assert(s.push(x)[0] == x);
        assert(search_fold(acc, s.push(x), ql) == search_fold(
            search_step(acc, x, ql),
            s,
            ql,
        ));
    } else {
        assert(s.push(x).drop_first() =~= s.drop_first().push(x));
        assert(s.push(x)[0] == s[0]);
        lemma_fold_snoc(search_step(acc, s[0], ql), s.drop_first(), x, ql);
        assert(search_fold(acc, s.push(x), ql) == search_fold(
            search_step(acc, s[0], ql),
            s.drop_first().push(x),
            ql,
        ));
    }
}

/// Folding over concatenated pair lists folds over each in turn.
proof fn lemma_fold_append(
    acc: Seq<(RepositoryView, PackageView)>,
    s1: Seq<(RepositoryView, PackageView)>,
    s2: Seq<(RepositoryView, PackageView)>,
    ql: Seq<char>,
)
    ensures
        search_fold(acc, s1 + s2, ql) == search_fold(search_fold(acc, s1, ql), s2, ql),
    decreases s1.len(),
{
    if s1.len() == 0 {
        assert(s1 + s2 =~= s2);
    } else {
        assert((s1 + s2)[0] == s1[0]);
        assert((s1 + s2).drop_first() =~= s1.drop_first() + s2);
        lemma_fold_append(search_step(acc, s1[0], ql), s1.drop_first(), s2, ql);
    }
}

/// Scans one repository's packages in order, in front of what was already
/// accumulated.
fn search_in_repo<'a>(
    repo: &'a Repository,
    ql: &str,
    res: &mut Vec<(&'a Repository, &'a Package)>,
)
    ensures
        pairs_view(final(res)@) == search_fold(pairs_view(old(res)@), pairs_of_repo(repo@), ql@),
{
    let ghost acc0 = pairs_view(old(res)@);
    let ghost rp = pairs_of_repo(repo@);
    let n = repo.packages.len();
    let mut i: usize = 0;
    assert(rp.take(0) =~= Seq::<(RepositoryView, PackageView)>::empty());
    assert(search_fold(acc0, rp.take(0), ql@) == acc0);
    while i < n
        invariant
            i <= n,
            n == repo.packages@.len(),
            rp == pairs_of_repo(repo@),
            acc0 == pairs_view(old(res)@),
            pairs_view(res@) == search_fold(acc0, rp.take(i as int), ql@),
        decreases n - i,
    {
        proof {
            assert(rp.len() == repo.packages.deep_view().len());
            assert(rp[i as int] == (repo@, repo.packages.deep_view()[i as int]));
            assert(repo.packages.deep_view()[i as int] == repo.packages@[i as int]@);
            assert(rp.take(i + 1) =~= rp.take(i as int).push(rp[i as int]));
            lemma_fold_snoc(acc0, rp.take(i as int), rp[i as int], ql@);
        }
        let pkg = &repo.packages[i];
        let name_low = lowercase(pkg.name.as_str());
        if str_eq(name_low.as_str(), ql) {
            res.insert(0, (repo, pkg));
            assert(pairs_view(res@) =~= seq![rp[i as int]] + search_fold(
                acc0,
                rp.take(i as int),
                ql@,
            ));
        } else if contains_str(name_low.as_str(), ql) {
            res.push((repo, pkg));
            assert(pairs_view(res@) =~= search_fold(acc0, rp.take(i as int), ql@).push(
                rp[i as int],
            ));
        }
        i = i + 1;
    }
    assert(rp.take(n as int) =~= rp);
}

/// Resolves a query against the registry: every package whose lowercased
/// name equals the lowercased query is put at the front, every package whose
/// lowercased name contains it is appended, in repository-then-package
/// discovery order.
pub fn search_packages<'a>(registry: &'a PackageRegistry, search_term: &str) -> (r: Vec<
    (&'a Repository, &'a Package),
>)
    ensures
        pairs_view(r@) == search_spec(registry@.repositories, search_term@),
{
    let ghost rd = registry@.repositories;
    let ghost ql_g = lower_of(search_term@);
    let ql = lowercase(search_term);
    let mut res: Vec<(&'a Repository, &'a Package)> = Vec::new();
    let n = registry.repositories.len();
    let mut ri: usize = 0;
    assert(pairs_view(res@) =~= Seq::<(RepositoryView, PackageView)>::empty());
    assert(rd.take(0) =~= Seq::<RepositoryView>::empty());
    while ri < n
        invariant
            ri <= n,
            n == registry.repositories@.len(),
            rd == registry@.repositories,
            ql@ == ql_g,
            pairs_view(res@) == search_fold(
                Seq::<(RepositoryView, PackageView)>::empty(),
                all_pairs(rd.take(ri as int)),
                ql_g,
            ),
        decreases n - ri,
    {
        proof {
            assert(rd[ri as int] == registry.repositories@[ri as int]@);
            assert(rd.take(ri + 1).drop_last() =~= rd.take(ri as int));
            assert(rd.take(ri + 1).last() == rd[ri as int]);
            lemma_fold_append(
                Seq::<(RepositoryView, PackageView)>::empty(),
                all_pairs(rd.take(ri as int)),
                pairs_of_repo(rd[ri as int]),
                ql_g,
            );
        }
        let repo = &registry.repositories[ri];
        search_in_repo(repo, ql.as_str(), &mut res);
        ri = ri + 1;
    }
    assert(rd.take(n as int) =~= rd);
    res
}

/// The pairs whose package is an exact match, in order.
pub open spec fn exacts(s: Seq<(RepositoryView, PackageView)>, ql: Seq<char>) -> Seq<
    (RepositoryView, PackageView),
>
    decreases s.len(),
{
    if s.len() == 0 {
        Seq::empty()
    } else {
        (if is_exact(s[0].1, ql) {
            seq![s[0]]
        } else {
            Seq::empty()
        }) + exacts(s.drop_first(), ql)
    }
}

/// The pairs whose package is a partial match, in order.
pub open spec fn partials(s: Seq<(RepositoryView, PackageView)>, ql: Seq<char>) -> Seq<
    (RepositoryView, PackageView),
>
    decreases s.len(),
{
    if s.len() == 0 {
        Seq::empty()
    } else {
        (if is_partial(s[0].1, ql) {
            seq![s[0]]
        } else {
            Seq::empty()
        }) + partials(s.drop_first(), ql)
    }
}

/// The fold is the reversed exact matches, then the starting accumulator,
/// then the partial matches.
proof fn lemma_fold_shape(
    acc: Seq<(RepositoryView, PackageView)>,
    s: Seq<(RepositoryView, PackageView)>,
    ql: Seq<char>,
)
    ensures
        search_fold(acc, s, ql) == exacts(s, ql).reverse() + acc + partials(s, ql),
    decreases s.len(),
{
    if s.len() == 0 {
        assert(exacts(s, ql).reverse() + acc + partials(s, ql) =~= acc);
    } else {
        let x = s[0];
        let rest = s.drop_first();
        lemma_fold_shape(search_step(acc, x, ql), rest, ql);
        if is_exact(x.1, ql) {
            assert(exacts(s, ql) == seq![x] + exacts(rest, ql));
            assert(exacts(s, ql).reverse() =~= exacts(rest, ql).reverse() + seq![x]);
            assert(exacts(rest, ql).reverse() + (seq![x] + acc) + partials(rest, ql)
                =~= exacts(s, ql).reverse() + acc + partials(s, ql));
        } else if is_partial(x.1, ql) {
            assert(partials(s, ql) == seq![x] + partials(rest, ql));
            assert(exacts(rest, ql).reverse() + acc.push(x) + partials(rest, ql) =~= exacts(
                s,
                ql,
            ).reverse() + acc + partials(s, ql));
        } else {
            assert(exacts(rest, ql).reverse() + acc + partials(rest, ql) =~= exacts(s, ql).reverse()
                + acc + partials(s, ql));
        }
    }
}

/// Law: the resolver's result is exactly the exact matches in reverse
/// discovery order followed by the partial matches in discovery order; in
/// particular every exact match precedes every partial match, whatever the
/// discovery order.
pub proof fn lemma_exact_match_precedence(repos: Seq<RepositoryView>, q: Seq<char>)
    ensures
        ({
            let ql = lower_of(q);
            let r = search_spec(repos, q);
            let e = exacts(all_pairs(repos), ql);
            let p = partials(all_pairs(repos), ql);
            &&& r == e.reverse() + p
            &&& forall|i: int| 0 <= i < e.len() ==> is_exact((#[trigger] r[i]).1, ql)
            &&& forall|i: int| e.len() <= i < r.len() ==> is_partial((#[trigger] r[i]).1, ql)
        }),
{
    let ql = lower_of(q);
    let s = all_pairs(repos);
    lemma_fold_shape(Seq::empty(), s, ql);
    lemma_split_shape(s, ql);
    let e = exacts(s, ql);
    let p = partials(s, ql);
    let r = search_spec(repos, q);
    assert(r =~= e.reverse() + p);
    assert forall|i: int| 0 <= i < e.len() implies is_exact((#[trigger] r[i]).1, ql) by {
        assert(r[i] == e.reverse()[i]);
        assert(e.reverse()[i] == e[e.len() - 1 - i]);
    }
    assert forall|i: int| e.len() <= i < r.len() implies is_partial((#[trigger] r[i]).1, ql) by {
        assert(r[i] == p[i - e.len()]);
    }
}

/// Every listed exact match is exact, every listed partial match partial.
proof fn lemma_split_shape(s: Seq<(RepositoryView, PackageView)>, ql: Seq<char>)
    ensures
        forall|i: int|
            0 <= i < exacts(s, ql).len() ==> is_exact((#[trigger] exacts(s, ql)[i]).1, ql),
        forall|i: int|
            0 <= i < partials(s, ql).len() ==> is_partial((#[trigger] partials(s, ql)[i]).1, ql),
    decreases s.len(),
{
    if s.len() > 0 {
        lemma_split_shape(s.drop_first(), ql);
        assert forall|i: int|
            0 <= i < exacts(s, ql).len() implies is_exact((#[trigger] exacts(s, ql)[i]).1, ql) by {
            if is_exact(s[0].1, ql) {
                if i > 0 {
                    assert(exacts(s, ql)[i] == exacts(s.drop_first(), ql)[i - 1]);
                }
            } else {
                assert(exacts(s, ql) =~= exacts(s.drop_first(), ql));
            }
        }
        assert forall|i: int|
            0 <= i < partials(s, ql).len() implies is_partial(
            (#[trigger] partials(s, ql)[i]).1,
            ql,
        ) by {
            if is_partial(s[0].1, ql) {
                if i > 0 {
                    assert(partials(s, ql)[i] == partials(s.drop_first(), ql)[i - 1]);
                }
            } else {
                assert(partials(s, ql) =~= partials(s.drop_first(), ql));
            }
        }
    }
}

/// What a download request asks for: a package name to resolve, or a direct
/// url with the filename to save under.
pub enum DownloadTarget {
    PackageName(String),
    DirectUrl { url: String, filename: String },
}

/// A settled download: the url to fetch and the filename to save under.
#[derive(Debug)]
pub struct DownloadPlan {
    pub url: String,
    pub filename: String,
}

/// Decides what a download request means against the registry: a direct url
/// passes through; a package name is resolved, the first candidate is chosen
/// and its url is the repository url followed by the filename; a name that
/// resolves to nothing is an error.
pub fn exec(registry: &PackageRegistry, target: DownloadTarget) -> (r: Result<
    DownloadPlan,
    String,
>)
    ensures
        ({
            match target {
                DownloadTarget::DirectUrl { url, filename } => r matches Ok(plan) && plan.url@
                    == url@ && plan.filename@ == filename@,
                DownloadTarget::PackageName(name) => {
                    let found = search_spec(registry@.repositories, name@);
                    if found.len() == 0 {
                        r matches Err(msg) && msg@ == "Package '"@ + name@
                            + "' not found. Try running 'rust-pm parse' to refresh the package index."@
                    } else {
                        r matches Ok(plan) && plan.url@ == found[0].0.url + found[0].1.filename
                            && plan.filename@ == found[0].1.filename
                    }
                },
            }
        }),
{
    match target {
        DownloadTarget::DirectUrl { url, filename } => Ok(DownloadPlan { url, filename }),
        DownloadTarget::PackageName(name) => {
            let results = search_packages(registry, name.as_str());
            if results.len() == 0 {
                let msg = String::from_str("Package '").concat(name.as_str()).concat(
                    "' not found. Try running 'rust-pm parse' to refresh the package index.",
                );
                Err(msg)
            } else {
                assert(pairs_view(results@)[0] == (results@[0].0@, results@[0].1@));
                let pair = results[0];
                let url = pair.0.url.clone().concat(pair.1.filename.as_str());
                Ok(DownloadPlan { url, filename: pair.1.filename.clone() })
            }
        },
    }
}

} // verus!
