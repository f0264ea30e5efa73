//! The registry: packages grouped by repository, merged per repository url
//! and summed into a total. A repository that is merged again under the same
//! url is replaced wholesale; a new url is appended.

use vstd::prelude::*;
use vstd::string::StringExecFns;
use crate::text::str_eq;

verus! {

/// One downloadable package.
pub struct Package {
    pub name: String,
    pub version: String,
    pub size: String,
    pub date: String,
    pub filename: String,
}

/// The model of a `Package`: its fields as character sequences.
#[verifier::ext_equal]
pub struct PackageView {
    pub name: Seq<char>,
    pub version: Seq<char>,
    pub size: Seq<char>,
    pub date: Seq<char>,
    pub filename: Seq<char>,
}

impl View for Package {
    type V = PackageView;

    open spec fn view(&self) -> PackageView {
        PackageView {
            name: self.name@,
            version: self.version@,
            size: self.size@,
            date: self.date@,
            filename: self.filename@,
        }
    }
}

impl DeepView for Package {
    type V = PackageView;

    open spec fn deep_view(&self) -> PackageView {
        self@
    }
}

impl Clone for Package {
    fn clone(&self) -> (r: Self)
        ensures
            r@ == self@,
    {
        Package {
            name: self.name.clone(),
            version: self.version.clone(),
            size: self.size.clone(),
            date: self.date.clone(),
            filename: self.filename.clone(),
        }
    }
}

/// One indexed repository: its url, an architecture tag, and its packages
/// with their count.
pub struct Repository {
    pub url: String,
    pub architecture: String,
    pub package_count: usize,
    pub packages: Vec<Package>,
}

/// The model of a `Repository`.
#[verifier::ext_equal]
pub struct RepositoryView {
    pub url: Seq<char>,
    pub architecture: Seq<char>,
    pub package_count: int,
    pub packages: Seq<PackageView>,
}

impl View for Repository {
    type V = RepositoryView;

    open spec fn view(&self) -> RepositoryView {
        RepositoryView {
            url: self.url@,
            architecture: self.architecture@,
            package_count: self.package_count as int,
            packages: self.packages.deep_view(),
        }
    }
}

impl DeepView for Repository {
    type V = RepositoryView;

    open spec fn deep_view(&self) -> RepositoryView {
        self@
    }
}

/// A field-for-field copy of a package list.
fn clone_packages(src: &Vec<Package>) -> (r: Vec<Package>)
    ensures
        r.deep_view() == src.deep_view(),
{
    let mut packages: Vec<Package> = Vec::new();
    let mut i: usize = 0;
    while i < src.len()
        invariant
            i <= src@.len(),
            packages@.len() == i,
            forall|j: int| 0 <= j < i ==> (#[trigger] packages@[j])@ == src@[j]@,
        decreases src@.len() - i,
    {
        packages.push(src[i].clone());
        i = i + 1;
    }
    assert(packages.deep_view() =~= src.deep_view()) by {
        assert(forall|j: int|
            0 <= j < src@.len() ==> (#[trigger] packages.deep_view()[j]) == packages@[j]@);
        assert(forall|j: int|
            0 <= j < src@.len() ==> (#[trigger] src.deep_view()[j]) == src@[j]@);
    }
    packages
}

impl Clone for Repository {
    fn clone(&self) -> (r: Self)
        ensures
            r@ == self@,
    {
        let packages = clone_packages(&self.packages);
        Repository {
            url: self.url.clone(),
            architecture: self.architecture.clone(),
            package_count: self.package_count,
            packages,
        }
    }
}

/// The whole registry: repositories and the derived total package count.
pub struct PackageRegistry {
    pub repositories: Vec<Repository>,
    pub total_packages: usize,
}

/// The model of a `PackageRegistry`.
#[verifier::ext_equal]
pub struct RegistryView {
    pub repositories: Seq<RepositoryView>,
    pub total_packages: int,
}

impl View for PackageRegistry {
    type V = RegistryView;

    open spec fn view(&self) -> RegistryView {
        RegistryView {
            repositories: self.repositories.deep_view(),
            total_packages: self.total_packages as int,
        }
    }
}

/// The list of repository base urls that a parse run consults.
pub struct ServersConfig {
    pub repositories: Vec<String>,
}

/// The constant architecture tag given to every indexed repository.
pub open spec fn default_arch() -> Seq<char> {
    seq!['x', '8', '6', '_', '6', '4']
}

/// The index of the first repository with the given url, or `-1`.
pub open spec fn repo_index(repos: Seq<RepositoryView>, url: Seq<char>) -> int
    decreases repos.len(),
{
    if repos.len() == 0 {
        -1
    } else if repos[0].url == url {
        0
    } else {
        let r = repo_index(repos.drop_first(), url);
        if r == -1 {
            -1
        } else {
            r + 1
        }
    }
}

/// The repository entry that a merge builds for a url and its packages.
pub open spec fn new_repo_view(url: Seq<char>, pkgs: Seq<PackageView>) -> RepositoryView {
    RepositoryView {
        url: url,
        architecture: default_arch(),
        package_count: pkgs.len() as int,
        packages: pkgs,
    }
}

/// What merging `(url, pkgs)` does to the repository list: the first entry
/// with that url is replaced wholesale, or a new entry is appended.
pub open spec fn merge_spec(
    repos: Seq<RepositoryView>,
    url: Seq<char>,
    pkgs: Seq<PackageView>,
) -> Seq<RepositoryView> {
    let i = repo_index(repos, url);
    if i >= 0 {
        repos.update(i, new_repo_view(url, pkgs))
    } else {
        repos.push(new_repo_view(url, pkgs))
    }
}

/// `repo_index` finds the first matching entry, within bounds, or reports
/// that there is none.
pub proof fn lemma_repo_index_props(repos: Seq<RepositoryView>, url: Seq<char>)
    ensures
        -1 <= repo_index(repos, url) < repos.len(),
        repo_index(repos, url) >= 0 ==> repos[repo_index(repos, url)].url == url,
        repo_index(repos, url) >= 0 ==> forall|j: int|
            0 <= j < repo_index(repos, url) ==> repos[j].url != url,
        repo_index(repos, url) == -1 ==> forall|j: int| 0 <= j < repos.len() ==> repos[j].url != url,
    decreases repos.len(),
{
    if repos.len() > 0 && repos[0].url != url {
        lemma_repo_index_props(repos.drop_first(), url);
        assert(forall|j: int|
            1 <= j < repos.len() ==> (#[trigger] repos[j]) == repos.drop_first()[j - 1]);
    }
}

/// The index of the first matching entry is determined by where matches sit.
pub proof fn lemma_repo_index_found(repos: Seq<RepositoryView>, url: Seq<char>, i: int)
    requires
        0 <= i < repos.len(),
        repos[i].url == url,
        forall|j: int| 0 <= j < i ==> repos[j].url != url,
    ensures
        repo_index(repos, url) == i,
{
    lemma_repo_index_props(repos, url);
    let r = repo_index(repos, url);
    if r < i {
        assert(repos[r].url != url);
    }
    if r > i {
        assert(repos[i].url != url);
    }
}

/// The index of the first repository entry whose url equals `url`, if any.
fn find_repo(repos: &Vec<Repository>, url: &str) -> (r: Option<usize>)
    ensures
        match r {
            Some(i) => 0 <= i < repos@.len() && repo_index(repos.deep_view(), url@) == i as int,
            None => repo_index(repos.deep_view(), url@) == -1,
        },
{
    let ghost rv = repos.deep_view();
    let n = repos.len();
    let mut i: usize = 0;
    while i < n
        invariant
            n == repos@.len(),
            i <= n,
            rv == repos.deep_view(),
            forall|j: int| 0 <= j < i ==> (#[trigger] rv[j]).url != url@,
        decreases n - i,
    {
        assert(rv[i as int] == repos@[i as int]@);
        if str_eq(repos[i].url.as_str(), url) {
            proof {
                lemma_repo_index_found(rv, url@, i as int);
            }
            return Some(i);
        }
        i = i + 1;
    }
    proof {
        lemma_repo_index_props(rv, url@);
        if repo_index(rv, url@) >= 0 {
            assert(rv[repo_index(rv, url@)].url != url@);
        }
    }
    None
}

/// Merges one repository's freshly extracted package list into the registry:
/// an existing entry for the url is replaced wholesale, a new url is
/// appended. The total is not touched; it is recomputed at the end of a run.
pub fn merge(registry: &mut PackageRegistry, url: &str, packages: Vec<Package>)
    ensures
        final(registry)@.repositories == merge_spec(
            old(registry)@.repositories,
            url@,
            packages.deep_view(),
        ),
        final(registry)@.total_packages == old(registry)@.total_packages,
{
    let ghost pkgs = packages.deep_view();
    let ghost repos0 = old(registry)@.repositories;
    let arch = String::from_str("x86_64");
    proof {
        reveal_strlit("x86_64");
        assert("x86_64"@ =~= default_arch());
    }
    let count = packages.len();
    let new_repo = Repository {
        url: String::from_str(url),
        architecture: arch,
        package_count: count,
        packages,
    };
    assert(new_repo@ =~~= new_repo_view(url@, pkgs));
    match find_repo(&registry.repositories, url) {
        Some(i) => {
            registry.repositories.remove(i);
            registry.repositories.insert(i, new_repo);
            proof {
                let vs = registry.repositories@;
                assert(forall|k: int|
                    0 <= k < vs.len() ==> (#[trigger] registry.repositories.deep_view()[k]) == vs[
                    k]@);
                assert(forall|k: int|
                    0 <= k < repos0.len() ==> (#[trigger] repos0[k]) == old(
                        registry,
                    ).repositories@[k]@);
                assert(registry.repositories.deep_view() =~= repos0.update(
                    i as int,
                    new_repo_view(url@, pkgs),
                ));
            }
        },
        None => {
            registry.repositories.push(new_repo);
            proof {
                let vs = registry.repositories@;
                assert(forall|k: int|
                    0 <= k < vs.len() ==> (#[trigger] registry.repositories.deep_view()[k]) == vs[
                    k]@);
                assert(forall|k: int|
                    0 <= k < repos0.len() ==> (#[trigger] repos0[k]) == old(
                        registry,
                    ).repositories@[k]@);
                assert(registry.repositories.deep_view() =~= repos0.push(
                    new_repo_view(url@, pkgs),
                ));
            }
        },
    }
}

/// The sum of the repositories' package counts.
pub open spec fn sum_counts(repos: Seq<RepositoryView>) -> int
    decreases repos.len(),
{
    if repos.len() == 0 {
        0
    } else {
        sum_counts(repos.drop_last()) + repos.last().package_count
    }
}

/// Prefix sums of nonnegative counts are monotone.
proof fn lemma_sum_counts_monotone(repos: Seq<RepositoryView>, i: int)
    requires
        0 <= i <= repos.len(),
        forall|j: int| 0 <= j < repos.len() ==> (#[trigger] repos[j]).package_count >= 0,
    ensures
        sum_counts(repos.take(i)) <= sum_counts(repos),
    decreases repos.len() - i,
{
    if i < repos.len() {
        lemma_sum_counts_monotone(repos, i + 1);
        assert(repos.take(i + 1).drop_last() =~= repos.take(i));
        assert(repos.take(i + 1).last() == repos[i]);
    } else {
        assert(repos.take(i) =~= repos);
    }
}

/// Recomputes the derived total as the sum of the package counts. Returns
/// `false`, leaving the registry unchanged, exactly when that sum does not
/// fit in `usize`.
pub fn recompute_total(registry: &mut PackageRegistry) -> (ok: bool)
    ensures
        final(registry)@.repositories == old(registry)@.repositories,
        ok == (sum_counts(old(registry)@.repositories) <= usize::MAX),
        ok ==> final(registry)@.total_packages == sum_counts(old(registry)@.repositories),
        !ok ==> final(registry)@.total_packages == old(registry)@.total_packages,
{
    let ghost repos0 = old(registry)@.repositories;
    assert(forall|k: int| 0 <= k < repos0.len() ==> (#[trigger] repos0[k]) == old(
        registry,
    ).repositories@[k]@);
    let n = registry.repositories.len();
    let mut sum: usize = 0;
    let mut i: usize = 0;
    while i < n
        invariant
            *registry == *old(registry),
            n == registry.repositories@.len(),
            repos0 == registry@.repositories,
            forall|k: int| 0 <= k < repos0.len() ==> (#[trigger] repos0[k]).package_count >= 0,
            i <= n,
            sum as int == sum_counts(repos0.take(i as int)),
        decreases n - i,
    {
        let c = registry.repositories[i].package_count;
        assert(repos0[i as int] == registry.repositories@[i as int]@);
        assert(repos0.take(i + 1).drop_last() =~= repos0.take(i as int));
        assert(repos0.take(i + 1).last() == repos0[i as int]);
        if c > usize::MAX - sum {
            proof {
                lemma_sum_counts_monotone(repos0, i + 1);
                assert(repos0.take(n as int) =~= repos0);
            }
            return false;
        }
        sum = sum + c;
        i = i + 1;
    }
    proof {
        assert(repos0.take(n as int) =~= repos0);
        lemma_sum_counts_monotone(repos0, n as int);
    }
    registry.total_packages = sum;
    true
}

/// No two repository entries share a url.
pub open spec fn distinct_urls(repos: Seq<RepositoryView>) -> bool {
    forall|i: int, j: int|
        0 <= i < j < repos.len() ==> (#[trigger] repos[i]).url != (#[trigger] repos[j]).url
}

/// Law: on a registry without duplicate urls, merging the same `(url,
/// packages)` pair twice in succession is the same as merging it once, and
/// the result holds exactly one entry for that url, carrying exactly those
/// packages and a count equal to their number.
pub proof fn lemma_merge_idempotent(
    repos: Seq<RepositoryView>,
    url: Seq<char>,
    pkgs: Seq<PackageView>,
)
    requires
        distinct_urls(repos),
    ensures
        ({
            let once = merge_spec(repos, url, pkgs);
            let twice = merge_spec(once, url, pkgs);
            &&& twice == once
            &&& distinct_urls(once)
            &&& exists|i: int| 0 <= i < once.len() && (#[trigger] once[i]).url == url
            &&& forall|i: int|
                0 <= i < once.len() && (#[trigger] once[i]).url == url ==> once[i].package_count
                    == pkgs.len() && once[i].packages == pkgs
        }),
{
    lemma_repo_index_props(repos, url);
    let i0 = repo_index(repos, url);
    let nv = new_repo_view(url, pkgs);
    let once = merge_spec(repos, url, pkgs);
    let w = if i0 >= 0 {
        i0
    } else {
        repos.len() as int
    };
    assert(once[w] == nv);
    assert(repos.len() <= once.len());
    assert forall|j: int| 0 <= j < once.len() && j != w implies once[j] == repos[j] by {}
    assert forall|j: int| 0 <= j < w implies (#[trigger] once[j]).url != url by {
        assert(once[j] == repos[j]);
        if i0 == -1 {
            assert(repos[j].url != url);
        }
    }
    lemma_repo_index_found(once, url, w);
    assert(merge_spec(once, url, pkgs) =~= once);
    assert(distinct_urls(once)) by {
        assert forall|a: int, b: int| 0 <= a < b < once.len() implies (
        #[trigger] once[a]).url != (#[trigger] once[b]).url by {
            if a != w && b != w {
                assert(once[a] == repos[a] && once[b] == repos[b]);
            } else if a == w && i0 >= 0 {
                assert(once[b] == repos[b]);
                assert(repos[a].url == url);
            } else if b == w && i0 >= 0 {
                assert(once[a] == repos[a]);
                assert(repos[b].url == url);
            } else {
                assert(once[a] == repos[a]);
            }
        }
    }
    assert(0 <= w < once.len() && once[w].url == url);
    assert forall|i: int|
        0 <= i < once.len() && (#[trigger] once[i]).url == url implies once[i].package_count
        == pkgs.len() && once[i].packages == pkgs by {
        if i != w {
            assert(once[i] == repos[i]);
            if i0 >= 0 {
                assert(repos[i0].url == url);
                if i < i0 {
                    assert(repos[i].url != repos[i0].url);
                } else {
                    assert(repos[i0].url != repos[i].url);
                }
            } else {
                assert(repos[i].url != url);
            }
            assert(false);
        }
    }
}

} // verus!
