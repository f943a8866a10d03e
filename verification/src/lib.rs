//! Fetching of apt packages and distribution files.
use crate::release::text_of;
use crate::text::{join2, starts_with, texts};
use crate::uris::{package_views, DebUriView};
use vstd::prelude::*;
use vstd::string::*;

pub mod command;
pub mod decompressor;
pub mod dist;
pub mod errors;
pub mod keyring;
pub mod packets;
pub mod release;
pub mod text;
pub mod upgrade;
pub mod uris;

pub use self::uris::{update_uris, DebUri, Error};

verus! {

/// Where fetched packages are kept.
pub const ARCHIVES: &'static str = "/var/cache/apt/archives/";

/// Where packages are kept while they are fetched.
pub const PARTIAL: &'static str = "/var/cache/apt/archives/partial/";

/// A package to fetch: from where, to where, and where it is kept meanwhile.
pub struct Source {
    pub urls: Vec<String>,
    pub dest: String,
    pub part: Option<String>,
}

#[verifier::ext_equal]
pub struct SourceView {
    pub urls: Seq<Seq<char>>,
    pub dest: Seq<char>,
    pub part: Option<Seq<char>>,
}

impl View for Source {
    type V = SourceView;

    open spec fn view(&self) -> SourceView {
        SourceView {
            urls: texts(self.urls@),
            dest: self.dest@,
            part: text_of(self.part),
        }
    }
}

/// The path `name` below the directory `dir`, which ends with a slash; an absolute
/// path is its own.
pub open spec fn path_below(dir: Seq<char>, name: Seq<char>) -> Seq<char> {
    if "/"@.is_prefix_of(name) {
        name
    } else {
        dir + name
    }
}

/// Where to fetch a package from, and where to.
pub open spec fn package_source(package: DebUriView) -> SourceView {
    SourceView {
        urls: seq![package.uri],
        dest: path_below(ARCHIVES@, package.name),
        part: Some(path_below(PARTIAL@, package.name)),
    }
}

/// What [`fetch_updates`] makes of the packages.
pub open spec fn package_sources(packages: Seq<DebUriView>) -> Seq<SourceView> {
    packages.map_values(|p: DebUriView| package_source(p))
}

/// The path `name` below the directory `dir`.
fn join_path(dir: &str, name: &str) -> (r: String)
    ensures
        r@ == path_below(dir@, name@),
{
    if starts_with(name, "/") {
        name.to_owned()
    } else {
        join2(dir, name)
    }
}

/// Says where to fetch a package from, and where to.
pub fn locate(package: DebUri) -> (r: Source)
    ensures
        r@ == package_source(package@),
{
    let dest = join_path(ARCHIVES, package.name.as_str());
    let part = join_path(PARTIAL, package.name.as_str());
    let urls: Vec<String> = vec![package.uri];
    assert(texts(urls@) =~= seq![package.uri@]);
    Source { urls, dest, part: Some(part) }
}

/// Says for each package in turn where to fetch it from, and where to.
pub fn fetch_updates(packages: Vec<DebUri>) -> (r: Vec<Source>)
    ensures
        r@.map_values(|s: Source| s@) == package_sources(
            package_views(packages@),
        ),
{
    let ghost all = package_views(packages@);
    let mut sources: Vec<Source> = Vec::new();
    let mut left = packages;
    let ghost mut done: int = 0;
    assert(left@ == packages@.skip(0));
    while left.len() > 0
        invariant
            all == package_views(packages@),
            0 <= done <= all.len(),
            left@ == packages@.skip(done),
            sources@.len() == done,
            forall|i: int| 0 <= i < done ==> (#[trigger] sources@[i])@ == package_source(all[i]),
        decreases left@.len(),
    {
        let package = left.remove(0);
        assert(package@ == all[done]);
        assert(left@ == packages@.skip(done + 1));
        sources.push(locate(package));
        proof {
            done = done + 1;
        }
    }
    assert(sources@.map_values(|s: Source| s@) =~= package_sources(all));
    sources
}

/// A package is fetched from its URI. It is kept under its name in the archives of apt, and beside
/// them while it is fetched; a name that is an absolute path is where it is kept in either case.
pub proof fn packages_are_kept_under_their_names(package: DebUri, r: Source)
    requires
        call_ensures(locate, (package,), r),
    ensures
        r.urls@.len() == 1,
        r.urls@[0]@ == package.uri@,
        ({
            let absolute = package.name@.len() > 0 && package.name@[0] == '/';
            &&& !absolute ==> r.dest@ == "/var/cache/apt/archives/"@ + package.name@
            &&& !absolute ==> (r.part matches Some(part) && part@
                == "/var/cache/apt/archives/partial/"@ + package.name@)
            &&& absolute ==> r.dest@ == package.name@ && (r.part matches Some(part) && part@
                == package.name@)
        }),
{
    lemma_source(package@);
    assert(r@.urls == texts(r.urls@));
    assert(texts(r.urls@).len() == r.urls@.len());
    assert(texts(r.urls@)[0] == r.urls@[0]@);
}

proof fn lemma_source(package: DebUriView)
    ensures
        ({
            let source = package_source(package);
            let absolute = package.name.len() > 0 && package.name[0] == '/';
            &&& source.urls == seq![package.uri]
            &&& !absolute ==> source.dest == "/var/cache/apt/archives/"@ + package.name
            &&& !absolute ==> source.part == Some(
                "/var/cache/apt/archives/partial/"@ + package.name,
            )
            &&& absolute ==> source.dest == package.name && source.part == Some(package.name)
        }),
{
    reveal_strlit("/");
    let name = package.name;
    assert("/"@ =~= seq!['/']);
    if name.len() > 0 {
        assert(name.subrange(0, 1) =~= seq![name[0]]);
        assert(seq!['/'][0] == '/' && seq![name[0]][0] == name[0]);
    }
}

/// Every package is fetched, in the order in which they come, and nothing else is.
pub proof fn every_package_is_fetched(packages: Vec<DebUri>, r: Vec<Source>, i: int)
    requires
        call_ensures(fetch_updates, (packages,), r),
    ensures
        r@.len() == packages@.len(),
        0 <= i < packages@.len() ==> {
            let name = packages@[i].name@;
            &&& r@[i].urls@.len() == 1
            &&& r@[i].urls@[0]@ == packages@[i].uri@
            &&& name.len() == 0 || name[0] != '/' ==> r@[i].dest@ == "/var/cache/apt/archives/"@
                + name
            &&& name.len() > 0 && name[0] == '/' ==> r@[i].dest@ == name
            &&& name.len() == 0 || name[0] != '/' ==> (r@[i].part matches Some(part) && part@
                == "/var/cache/apt/archives/partial/"@ + name)
        },
{
    let sources = r@.map_values(|s: Source| s@);
    assert(sources.len() == r@.len());
    if 0 <= i < packages@.len() {
        lemma_source(packages@[i]@);
        assert(package_views(packages@)[i] == packages@[i]@);
        assert(sources[i] == r@[i]@);
        let urls = r@[i].urls@;
        assert(r@[i]@.urls == texts(urls));
        assert(texts(urls).len() == urls.len());
        assert(texts(urls)[0] == urls[0]@);
    }
}

} // verus!
