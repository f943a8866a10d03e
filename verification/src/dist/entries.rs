//! The files that an update fetches out of those that a release file lists.
use crate::release::{
    entry_variant, has_variant_defined, variant_defined, variant_of, variant_view, EntryComponents,
    EntryComponentsView, EntryVariant, EntryVariantView, ReleaseComponent, ReleaseComponentView,
    ReleaseEntry, ReleaseEntryView, ReleaseItem, ReleaseItemView,
};
use crate::text::{
    after_bytes, contains_text, ends_with, join2, join3, replace, replace_all, same, skip_bytes,
    splits_at, texts,
};
use vstd::prelude::*;
use vstd::string::*;
use vstd::utf8::*;

verus! {

/// A checksum method.
#[derive(Copy, Clone, Debug, PartialEq, Eq, Structural)]
pub enum ChecksumKind {
    Sha256,
    Sha1,
    Md5,
}

/// How a fetched file is compressed.
#[derive(Copy, Clone, Debug, PartialEq, Eq, Structural)]
pub enum Compression {
    Gz,
    Xz,
    Lz4,
}

/// Where fetched files are kept.
pub const LISTS: &'static str = "var/lib/apt/lists/";

/// Where files are kept while they are fetched.
pub const PARTIAL: &'static str = "var/lib/apt/lists/partial/";

/// What `sums` lists under `method`.
pub open spec fn listed_under(
    sums: Seq<EntryComponentsView>,
    method: Seq<char>,
) -> Option<EntryComponentsView>
    decreases sums.len(),
{
    if sums.len() == 0 {
        None
    } else if sums[0].method == method {
        Some(sums[0])
    } else {
        listed_under(sums.drop_first(), method)
    }
}

/// The strongest checksum method of a release file, and what is listed under it.
pub open spec fn strongest(sums: Seq<EntryComponentsView>) -> Option<
    (ChecksumKind, EntryComponentsView),
> {
    if listed_under(sums, "SHA256"@) is Some {
        Some((ChecksumKind::Sha256, listed_under(sums, "SHA256"@)->0))
    } else if listed_under(sums, "SHA1"@) is Some {
        Some((ChecksumKind::Sha1, listed_under(sums, "SHA1"@)->0))
    } else if listed_under(sums, "MD5Sum"@) is Some {
        Some((ChecksumKind::Md5, listed_under(sums, "MD5Sum"@)->0))
    } else {
        None
    }
}

/// An item that may be fetched, and the component it belongs to.
#[verifier::ext_equal]
pub struct CandidateView {
    pub component: Option<Seq<char>>,
    pub item: ReleaseItemView,
}

/// The items of one component.
pub open spec fn of_component(component: ReleaseComponentView) -> Seq<CandidateView> {
    component.items.map_values(
        |item: ReleaseItemView| CandidateView { component: Some(component.name), item },
    )
}

/// The items of those components that are wanted.
pub open spec fn of_components(
    components: Seq<ReleaseComponentView>,
    wanted: Seq<Seq<char>>,
) -> Seq<CandidateView>
    decreases components.len(),
{
    if components.len() == 0 {
        seq![]
    } else if wanted.contains(components.last().name) {
        of_components(components.drop_last(), wanted) + of_component(components.last())
    } else {
        of_components(components.drop_last(), wanted)
    }
}

/// The items that belong to no component.
pub open spec fn of_base(base: Seq<ReleaseItemView>) -> Seq<CandidateView> {
    base.map_values(|item: ReleaseItemView| CandidateView { component: None, item })
}

/// The items to choose from: those of the wanted components, then those that
/// belong to none.
pub open spec fn candidates(lists: EntryComponentsView, wanted: Seq<Seq<char>>) -> Seq<
    CandidateView,
> {
    of_components(lists.components, wanted) + of_base(lists.base)
}

/// Whether a kind of file is needed on a system with the architectures `archs`.
pub open spec fn is_needed_kind(variant: Option<EntryVariantView>, archs: Seq<Seq<char>>) -> bool {
    match variant {
        Some(EntryVariantView::Packages(_, arch)) => archs.contains(arch),
        Some(EntryVariantView::BinaryRelease(arch)) => archs.contains(arch),
        Some(EntryVariantView::Contents(arch)) => archs.contains(arch),
        Some(EntryVariantView::Dep11Components(arch)) => archs.contains(arch),
        Some(EntryVariantView::Dep11Icons) => true,
        Some(EntryVariantView::Source) => true,
        Some(EntryVariantView::I18n) => false,
        None => false,
    }
}

/// Whether an item is needed: its first entry decides.
pub open spec fn is_needed(item: ReleaseItemView, archs: Seq<Seq<char>>) -> bool {
    item.entries.len() > 0 && is_needed_kind(entry_variant(item.entries[0].path), archs)
}

/// The test that [`selected`] filters by.
pub open spec fn needed_on(archs: Seq<Seq<char>>) -> spec_fn(CandidateView) -> bool {
    |c: CandidateView| is_needed(c.item, archs)
}

/// The candidates that are needed on a system with the architectures `archs`.
pub open spec fn selected(
    lists: EntryComponentsView,
    wanted: Seq<Seq<char>>,
    archs: Seq<Seq<char>>,
) -> Seq<CandidateView> {
    candidates(lists, wanted).filter(needed_on(archs))
}

/// The position of the first entry whose path ends with `suffix`, or the number of
/// entries where there is none.
pub open spec fn first_ending(entries: Seq<ReleaseEntryView>, suffix: Seq<char>) -> nat
    decreases entries.len(),
{
    if entries.len() == 0 || suffix.is_suffix_of(entries[0].path) {
        0
    } else {
        1 + first_ending(entries.drop_first(), suffix)
    }
}

/// The position of the entry to fetch: one that is compressed with XZ, else one
/// that is compressed with GZIP, else the last.
pub open spec fn preferred_entry(entries: Seq<ReleaseEntryView>) -> int {
    if first_ending(entries, ".xz"@) < entries.len() {
        first_ending(entries, ".xz"@) as int
    } else if first_ending(entries, ".gz"@) < entries.len() {
        first_ending(entries, ".gz"@) as int
    } else {
        entries.len() - 1
    }
}

/// The position of the entry with the shortest path, in bytes; the first of them
/// where several are as short.
pub open spec fn shortest_entry(entries: Seq<ReleaseEntryView>) -> int
    decreases entries.len(),
{
    if entries.len() <= 1 {
        0
    } else {
        let s = shortest_entry(entries.drop_last());
        if encode_utf8(entries[s].path).len() > encode_utf8(entries.last().path).len() {
            entries.len() - 1
        } else {
            s
        }
    }
}

/// The entry of an item that is fetched.
#[verifier::ext_equal]
pub struct PreferredRequestView {
    pub checksum_decompressed: Option<Seq<char>>,
    pub checksum: Seq<char>,
    pub path: Seq<char>,
    pub path_trim: u8,
    pub size: u64,
    pub compression: Option<Compression>,
}

/// The path of `entry` below the directory of the release file.
pub open spec fn full_path(component: Option<Seq<char>>, path: Seq<char>) -> Seq<char> {
    match component {
        Some(name) => name + "/"@ + path,
        None => path,
    }
}

/// The path of the preferred entry of `c`, as the entry gives it.
pub open spec fn preferred_path(c: CandidateView) -> Seq<char> {
    c.item.entries[preferred_entry(c.item.entries)].path
}

/// The extension of the `Packages` index that is fetched for `c` and decompressed
/// afterwards, where the preferred entry is of the kind `variant`; `None` where what
/// is fetched is kept as it is.
pub open spec fn decompressed_extension(
    c: CandidateView,
    variant: Option<EntryVariantView>,
) -> Option<Option<Seq<char>>> {
    if full_path(c.component, preferred_path(c)) != c.item.name {
        match variant {
            Some(EntryVariantView::Packages(ext, _)) => Some(ext),
            _ => None,
        }
    } else {
        None
    }
}

/// Whether an index of the kind `variant` that is fetched for `c` can be
/// decompressed, where that is to be done.
pub open spec fn is_supported(c: CandidateView, variant: Option<EntryVariantView>) -> bool {
    decompressed_extension(c, variant) matches Some(ext) ==> ext == Some("xz"@) || ext == Some(
        "gz"@,
    )
}

/// The request that fetches the preferred entry of `c`, which is of the kind
/// `variant`.
pub open spec fn preferred(
    c: CandidateView,
    variant: Option<EntryVariantView>,
) -> PreferredRequestView {
    let entry = c.item.entries[preferred_entry(c.item.entries)];
    let plain = PreferredRequestView {
        checksum_decompressed: None,
        checksum: entry.sum,
        path: full_path(c.component, entry.path),
        path_trim: 0,
        size: entry.size,
        compression: None,
    };
    match decompressed_extension(c, variant) {
        Some(ext) => PreferredRequestView {
            checksum_decompressed: Some(c.item.entries[shortest_entry(c.item.entries)].sum),
            path_trim: 3,
            compression: Some(
                if ext == Some("xz"@) {
                    Compression::Xz
                } else {
                    Compression::Gz
                },
            ),
            ..plain
        },
        None => plain,
    }
}

/// A file to fetch: from where, to where, and what its content must be.
#[verifier::ext_equal]
pub struct EntryRequestView {
    pub url: Seq<char>,
    pub dest: Seq<char>,
    pub partial: Seq<char>,
    pub kind: ChecksumKind,
    pub fetched_checksum: Seq<char>,
    pub dest_checksum: Seq<char>,
    pub compression: Option<Compression>,
}

/// The name under which the file at `url` is stored: what follows the first seven
/// bytes, which hold the scheme, with an underscore for each slash.
pub open spec fn file_name(url: Seq<char>) -> Seq<char> {
    replace_all(after_bytes(url, 7), "/"@, "_"@)
}

/// The request for the file that `p` describes, in the repository at `base`.
pub open spec fn entry_request(
    base: Seq<char>,
    kind: ChecksumKind,
    p: PreferredRequestView,
) -> EntryRequestView {
    let url = base + p.path;
    let name = file_name(url);
    EntryRequestView {
        url,
        dest: LISTS@ + name.take(name.len() - p.path_trim),
        partial: PARTIAL@ + name,
        kind,
        fetched_checksum: p.checksum,
        dest_checksum: match p.checksum_decompressed {
            Some(sum) => sum,
            None => p.checksum,
        },
        compression: p.compression,
    }
}

/// What [`entry_requests`] makes of a candidate.
pub open spec fn request_at(base: Seq<char>, kind: ChecksumKind) -> spec_fn(
    CandidateView,
) -> EntryRequestView {
    |c: CandidateView| entry_request(
        base,
        kind,
        preferred(c, entry_variant(preferred_path(c))),
    )
}

/// The requests for the needed files among those listed, in the repository at
/// `base`.
pub open spec fn entry_requests(
    base: Seq<char>,
    kind: ChecksumKind,
    lists: EntryComponentsView,
    wanted: Seq<Seq<char>>,
    archs: Seq<Seq<char>>,
) -> Seq<EntryRequestView> {
    selected(lists, wanted, archs).map_values(request_at(base, kind))
}

/// Whether a candidate can be dealt with: the kinds of its first entry and of the
/// entry to fetch can be told, an index that is to be decompressed is compressed
/// with XZ or GZIP, and its URL has a scheme to cut off.
pub open spec fn is_fetchable(base: Seq<char>, c: CandidateView, archs: Seq<Seq<char>>) -> bool {
    &&& c.item.entries.len() > 0 ==> variant_defined(c.item.entries[0].path)
    &&& is_needed(c.item, archs) ==> {
        &&& variant_defined(preferred_path(c))
        &&& is_supported(c, entry_variant(preferred_path(c)))
        &&& splits_at(base + full_path(c.component, preferred_path(c)), 7)
    }
}

/// Whether every candidate can be dealt with.
pub open spec fn all_fetchable(
    base: Seq<char>,
    lists: EntryComponentsView,
    wanted: Seq<Seq<char>>,
    archs: Seq<Seq<char>>,
) -> bool {
    forall|i: int|
        0 <= i < candidates(lists, wanted).len() ==> is_fetchable(
            base,
            #[trigger] candidates(lists, wanted)[i],
            archs,
        )
}

/// The entry of an item that is fetched.
pub struct PreferredRequest {
    /// The checksum of the decompressed file, where it is to be decompressed.
    pub checksum_decompressed: Option<String>,
    /// The checksum of the file as it is fetched.
    pub checksum: String,
    /// The path below the directory of the release file.
    pub path: String,
    /// How many characters the extension takes that decompression removes.
    pub path_trim: u8,
    pub size: u64,
    pub compression: Option<Compression>,
}

impl View for PreferredRequest {
    type V = PreferredRequestView;

    open spec fn view(&self) -> PreferredRequestView {
        PreferredRequestView {
            checksum_decompressed: crate::release::text_of(self.checksum_decompressed),
            checksum: self.checksum@,
            path: self.path@,
            path_trim: self.path_trim,
            size: self.size,
            compression: self.compression,
        }
    }
}

/// A file to fetch: from where, to where, and what its content must be.
pub struct EntryRequest {
    pub url: String,
    /// Where the file is kept.
    pub dest: String,
    /// Where the file is kept while it is fetched.
    pub partial: String,
    pub kind: ChecksumKind,
    /// The checksum of the file as it is fetched.
    pub fetched_checksum: String,
    /// The checksum of the file as it is kept.
    pub dest_checksum: String,
    pub compression: Option<Compression>,
}

impl View for EntryRequest {
    type V = EntryRequestView;

    open spec fn view(&self) -> EntryRequestView {
        EntryRequestView {
            url: self.url@,
            dest: self.dest@,
            partial: self.partial@,
            kind: self.kind,
            fetched_checksum: self.fetched_checksum@,
            dest_checksum: self.dest_checksum@,
            compression: self.compression,
        }
    }
}

/// The requests that `requests` describes.
pub open spec fn request_views(requests: Seq<EntryRequest>) -> Seq<EntryRequestView> {
    requests.map_values(|r: EntryRequest| r@)
}

proof fn lemma_listed_under_at(sums: Seq<EntryComponentsView>, method: Seq<char>, n: int)
    requires
        0 <= n <= sums.len(),
        forall|i: int| 0 <= i < n ==> (#[trigger] sums[i]).method != method,
        n < sums.len() ==> sums[n].method == method,
    ensures
        listed_under(sums, method) == if n < sums.len() {
            Some(sums[n])
        } else {
            None
        },
    decreases n,
{
    if n > 0 {
        assert(sums[0].method != method);
        let rest = sums.drop_first();
        assert forall|i: int| 0 <= i < n - 1 implies (#[trigger] rest[i]).method != method by {
            assert(rest[i] == sums[i + 1]);
        }
        lemma_listed_under_at(rest, method, n - 1);
    }
}

/// Looks up what is listed under `method`.
fn find_listed<'a>(sums: &'a Vec<EntryComponents>, method: &str) -> (r: Option<&'a EntryComponents>)
    ensures
        match r {
            Some(lists) => listed_under(
                sums@.map_values(|s: EntryComponents| s@),
                method@,
            ) == Some(lists@),
            None => listed_under(sums@.map_values(|s: EntryComponents| s@), method@) is None,
        },
{
    let ghost views = sums@.map_values(|s: EntryComponents| s@);
    let mut i: usize = 0;
    while i < sums.len()
        invariant
            i <= sums@.len(),
            views == sums@.map_values(|s: EntryComponents| s@),
            forall|k: int| 0 <= k < i ==> (#[trigger] views[k]).method != method@,
        decreases sums@.len() - i,
    {
        if same(sums[i].method.as_str(), method) {
            proof {
                lemma_listed_under_at(views, method@, i as int);
            }
            return Some(&sums[i]);
        }
        i = i + 1;
    }
    proof {
        lemma_listed_under_at(views, method@, i as int);
    }
    None
}

/// Finds the strongest checksum method of a release file, and what is listed
/// under it.
pub fn find_strongest<'a>(sums: &'a Vec<EntryComponents>) -> (r: Option<
    (ChecksumKind, &'a EntryComponents),
>)
    ensures
        match r {
            Some((kind, lists)) => strongest(sums@.map_values(|s: EntryComponents| s@)) == Some(
                (kind, lists@),
            ),
            None => strongest(sums@.map_values(|s: EntryComponents| s@)) is None,
        },
{
    if let Some(lists) = find_listed(sums, "SHA256") {
        return Some((ChecksumKind::Sha256, lists));
    }
    if let Some(lists) = find_listed(sums, "SHA1") {
        return Some((ChecksumKind::Sha1, lists));
    }
    match find_listed(sums, "MD5Sum") {
        Some(lists) => Some((ChecksumKind::Md5, lists)),
        None => None,
    }
}

/// An item that may be fetched, and the component it belongs to.
pub struct Candidate<'a> {
    pub component: Option<&'a str>,
    pub item: &'a ReleaseItem,
}

impl<'a> View for Candidate<'a> {
    type V = CandidateView;

    open spec fn view(&self) -> CandidateView {
        CandidateView {
            component: match self.component {
                Some(name) => Some(name@),
                None => None,
            },
            item: self.item@,
        }
    }
}

/// The candidates that `list` holds.
pub open spec fn candidate_views<'a>(list: Seq<Candidate<'a>>) -> Seq<CandidateView> {
    list.map_values(|c: Candidate<'a>| c@)
}

/// Appends the items of one component, or of none.
fn add_items<'a>(list: &mut Vec<Candidate<'a>>, component: Option<&'a str>, items: &'a Vec<
    ReleaseItem,
>)
    ensures
        candidate_views(final(list)@) == candidate_views(old(list)@) + items@.map_values(
            |i: ReleaseItem| i@,
        ).map_values(
            |item: ReleaseItemView|
                CandidateView {
                    component: match component {
                        Some(name) => Some(name@),
                        None => None,
                    },
                    item,
                },
        ),
{
    let ghost before = list@;
    let ghost added = items@.map_values(|i: ReleaseItem| i@).map_values(
        |item: ReleaseItemView|
            CandidateView {
                component: match component {
                    Some(name) => Some(name@),
                    None => None,
                },
                item,
            },
    );
    assert(candidate_views(before) + added.take(0) =~= candidate_views(before));
    for i in 0..items.len()
        invariant
            added.len() == items@.len(),
            forall|k: int|
                0 <= k < items@.len() ==> (#[trigger] added[k]) == (CandidateView {
                    component: match component {
                        Some(name) => Some(name@),
                        None => None,
                    },
                    item: items@[k]@,
                }),
            candidate_views(list@) == candidate_views(before) + added.take(i as int),
    {
        let ghost previous = list@;
        let c = Candidate { component, item: &items[i] };
        assert(c@ == added[i as int]);
        list.push(c);
        assert(candidate_views(list@) =~= candidate_views(previous).push(added[i as int]));
        assert(added.take(i + 1) =~= added.take(i as int).push(added[i as int]));
    }
    assert(added.take(added.len() as int) =~= added);
}

/// Lists the items to choose from.
pub fn list_candidates<'a>(lists: &'a EntryComponents, wanted: &Vec<String>) -> (r: Vec<
    Candidate<'a>,
>)
    ensures
        candidate_views(r@) == candidates(lists@, texts(wanted@)),
{
    let mut r: Vec<Candidate<'a>> = Vec::new();
    let ghost all = lists@.components;
    assert(candidate_views(r@) =~= of_components(all.take(0), texts(wanted@)));
    for i in 0..lists.components.len()
        invariant
            all == lists@.components,
            candidate_views(r@) == of_components(all.take(i as int), texts(wanted@)),
    {
        let component = &lists.components[i];
        assert(all.take(i + 1).drop_last() =~= all.take(i as int));
        assert(all.take(i + 1).last() == component@);
        if contains_text(wanted, component.name.as_str()) {
            let ghost before = r@;
            add_items(&mut r, Some(component.name.as_str()), &component.items);
            assert(candidate_views(r@) =~= candidate_views(before) + of_component(component@));
        }
    }
    assert(all.take(all.len() as int) == all);
    let ghost before = r@;
    add_items(&mut r, None, &lists.base);
    assert(candidate_views(r@) =~= candidate_views(before) + of_base(lists@.base));
    r
}

/// Tests whether a kind of file is needed on a system with the architectures
/// `archs`.
pub fn is_kind_needed(variant: &Option<EntryVariant>, archs: &Vec<String>) -> (r: bool)
    ensures
        r == is_needed_kind(variant_view(*variant), texts(archs@)),
{
    match variant {
        Some(EntryVariant::Packages(_, arch)) => contains_text(archs, arch.as_str()),
        Some(EntryVariant::BinaryRelease(arch)) => contains_text(archs, arch.as_str()),
        Some(EntryVariant::Contents(arch)) => contains_text(archs, arch.as_str()),
        Some(EntryVariant::Dep11Components(arch)) => contains_text(archs, arch.as_str()),
        Some(EntryVariant::Dep11Icons) => true,
        Some(EntryVariant::Source) => true,
        Some(EntryVariant::I18n) => false,
        None => false,
    }
}

proof fn lemma_first_ending_at(entries: Seq<ReleaseEntryView>, suffix: Seq<char>, n: int)
    requires
        0 <= n <= entries.len(),
        forall|i: int| 0 <= i < n ==> !suffix.is_suffix_of((#[trigger] entries[i]).path),
        n < entries.len() ==> suffix.is_suffix_of(entries[n].path),
    ensures
        first_ending(entries, suffix) == n,
    decreases n,
{
    if n > 0 {
        assert(!suffix.is_suffix_of(entries[0].path));
        let rest = entries.drop_first();
        assert forall|i: int| 0 <= i < n - 1 implies !suffix.is_suffix_of(
            (#[trigger] rest[i]).path,
        ) by {
            assert(rest[i] == entries[i + 1]);
        }
        lemma_first_ending_at(rest, suffix, n - 1);
    }
}

/// The position of the first entry whose path ends with `suffix`.
fn find_ending(entries: &Vec<ReleaseEntry>, suffix: &str) -> (r: usize)
    ensures
        r == first_ending(entries@.map_values(|e: ReleaseEntry| e@), suffix@),
        r <= entries@.len(),
{
    let ghost views = entries@.map_values(|e: ReleaseEntry| e@);
    let mut i: usize = 0;
    while i < entries.len() && !ends_with(entries[i].path.as_str(), suffix)
        invariant
            i <= entries@.len(),
            views == entries@.map_values(|e: ReleaseEntry| e@),
            forall|k: int| 0 <= k < i ==> !suffix@.is_suffix_of((#[trigger] views[k]).path),
        decreases entries@.len() - i,
    {
        i = i + 1;
    }
    proof {
        lemma_first_ending_at(views, suffix@, i as int);
    }
    i
}

/// The position of the entry to fetch.
pub fn find_preferred(entries: &Vec<ReleaseEntry>) -> (r: usize)
    requires
        entries@.len() > 0,
    ensures
        r == preferred_entry(entries@.map_values(|e: ReleaseEntry| e@)),
        r < entries@.len(),
{
    let xz = find_ending(entries, ".xz");
    if xz < entries.len() {
        return xz;
    }
    let gz = find_ending(entries, ".gz");
    if gz < entries.len() {
        return gz;
    }
    entries.len() - 1
}

/// The position of the entry with the shortest path.
pub fn find_shortest(entries: &Vec<ReleaseEntry>) -> (r: usize)
    requires
        entries@.len() > 0,
    ensures
        r == shortest_entry(entries@.map_values(|e: ReleaseEntry| e@)),
        r < entries@.len(),
{
    let ghost views = entries@.map_values(|e: ReleaseEntry| e@);
    let mut shortest: usize = 0;
    let mut i: usize = 1;
    while i < entries.len()
        invariant
            1 <= i <= entries@.len(),
            shortest < i,
            views == entries@.map_values(|e: ReleaseEntry| e@),
            shortest == shortest_entry(views.take(i as int)),
        decreases entries@.len() - i,
    {
        assert(views.take(i + 1).drop_last() =~= views.take(i as int));
        let current = entries[shortest].path.as_str().as_bytes();
        let other = entries[i].path.as_str().as_bytes();
        if current.len() > other.len() {
            shortest = i;
        }
        i = i + 1;
    }
    assert(views.take(i as int) =~= views);
    shortest
}

/// The request that fetches the preferred entry of `c`, which is of the kind
/// `variant`.
pub fn preferred_request(c: &Candidate, variant: &Option<EntryVariant>) -> (r: PreferredRequest)
    requires
        c@.item.entries.len() > 0,
        is_supported(c@, variant_view(*variant)),
    ensures
        r@ == preferred(c@, variant_view(*variant)),
{
    let entries = &c.item.entries;
    let entry = &entries[find_preferred(entries)];
    let path = match c.component {
        Some(name) => join3(name, "/", entry.path.as_str()),
        None => entry.path.clone(),
    };
    let plain = same(path.as_str(), c.item.name.as_str());
    let mut request = PreferredRequest {
        checksum_decompressed: None,
        checksum: entry.sum.clone(),
        path,
        path_trim: 0,
        size: entry.size,
        compression: None,
    };
    if !plain {
        if let Some(EntryVariant::Packages(ext, _)) = variant {
            request.checksum_decompressed = Some(entries[find_shortest(entries)].sum.clone());
            request.path_trim = 3;
            request.compression = Some(
                match ext {
                    Some(ext) => if same(ext.as_str(), "xz") {
                        Compression::Xz
                    } else {
                        Compression::Gz
                    },
                    None => Compression::Gz,
                },
            );
        }
    }
    request
}

/// Whether the last `n` characters of `s` take one byte each.
pub open spec fn trims(s: Seq<char>, n: int) -> bool {
    n <= s.len() && forall|i: int| s.len() - n <= i < s.len() ==> crate::text::is_one_byte(
        #[trigger] s[i],
    )
}

/// The request for the file that `p` describes, in the repository at `base`.
pub fn request_entry(base: &str, kind: ChecksumKind, p: PreferredRequest) -> (r: EntryRequest)
    requires
        splits_at(base@ + p.path@, 7),
        trims(file_name(base@ + p.path@), p.path_trim as int),
    ensures
        r@ == entry_request(base@, kind, p@),
{
    let url = join2(base, p.path.as_str());
    let name = replace(skip_bytes(url.as_str(), 7), "/", "_");
    let kept = name.as_str().substring_char(0, name.as_str().unicode_len() - p.path_trim as usize);
    let dest_checksum = match &p.checksum_decompressed {
        Some(sum) => sum.clone(),
        None => p.checksum.clone(),
    };
    EntryRequest {
        dest: join2(LISTS, kept),
        partial: join2(PARTIAL, name.as_str()),
        url,
        kind,
        fetched_checksum: p.checksum,
        dest_checksum,
        compression: p.compression,
    }
}

/// The name of a `Packages` index that is to be decompressed ends with an
/// extension of three characters, of one byte each.
proof fn lemma_extension_is_trimmed(base: Seq<char>, c: CandidateView, ext: Seq<char>)
    requires
        crate::release::ends_in_packages(preferred_path(c), ext),
        ext == "xz"@ || ext == "gz"@,
        splits_at(base + full_path(c.component, preferred_path(c)), 7),
    ensures
        trims(file_name(base + full_path(c.component, preferred_path(c))), 3),
{
    reveal_strlit("xz");
    reveal_strlit("gz");
    reveal_strlit("Packages");
    reveal_strlit("/");
    reveal_strlit("_");
    let path = preferred_path(c);
    let url = base + full_path(c.component, path);
    let cut = after_bytes(url, 7);
    let name = file_name(url);
    crate::text::lemma_after_bytes(url, 7);
    crate::text::lemma_replace_char(cut, '/', '_');
    assert("/"@ =~= seq!['/']);
    assert("_"@ =~= seq!['_']);
    assert(name.len() == cut.len());
    assert(path.len() >= 11);
    assert(url.len() >= path.len());
    assert forall|i: int| name.len() - 3 <= i < name.len() implies crate::text::is_one_byte(
        #[trigger] name[i],
    ) by {
        let k = i - cut.len() + path.len();
        assert(cut[i] == url[i - cut.len() + url.len()]);
        assert(url[i - cut.len() + url.len()] == path[k]);
        if k > path.len() - 3 {
            assert(path.skip(path.len() - 2)[k - (path.len() - 2)] == path[k]);
            assert(path[k] == ext[k - (path.len() - 2)]);
        }
    }
}

/// Plans the requests for the needed files among those listed, in the repository at
/// `base`; `None` where one of the candidates cannot be dealt with.
pub fn plan_requests(
    base: &str,
    kind: ChecksumKind,
    lists: &EntryComponents,
    wanted: &Vec<String>,
    archs: &Vec<String>,
) -> (r: Option<Vec<EntryRequest>>)
    ensures
        r is Some <==> all_fetchable(base@, lists@, texts(wanted@), texts(archs@)),
        r matches Some(requests) ==> request_views(requests@) == entry_requests(
            base@,
            kind,
            lists@,
            texts(wanted@),
            texts(archs@),
        ),
{
    let list = list_candidates(lists, wanted);
    let ghost all = candidates(lists@, texts(wanted@));
    let ghost needed = needed_on(texts(archs@));
    let ghost make = request_at(base@, kind);
    let mut requests: Vec<EntryRequest> = Vec::new();
    assert(all.take(0).filter(needed).map_values(make) =~= request_views(requests@));
    for i in 0..list.len()
        invariant
            candidate_views(list@) == all,
            all == candidates(lists@, texts(wanted@)),
            needed == needed_on(texts(archs@)),
            make == request_at(base@, kind),
            request_views(requests@) == all.take(i as int).filter(needed).map_values(make),
            forall|k: int| 0 <= k < i ==> is_fetchable(base@, #[trigger] all[k], texts(archs@)),
    {
        let c = &list[i];
        proof {
            assert(c@ == all[i as int]);
            assert(all.take(i + 1).drop_last() =~= all.take(i as int));
            assert(all.take(i + 1).last() == c@);
            reveal_with_fuel(Seq::filter, 2);
        }
        let entries = &c.item.entries;
        if entries.len() > 0 {
            assert(c@.item.entries[0] == entries@[0]@);
            if !has_variant_defined(entries[0].path.as_str()) {
                return None;
            }
            if is_kind_needed(&variant_of(entries[0].path.as_str()), archs) {
                match plan_request(base, kind, c) {
                    Some(request) => {
                        let ghost before = requests@;
                        let ghost kept = all.take(i as int).filter(needed);
                        requests.push(request);
                        proof {
                            assert(needed(c@));
                            assert(all.take(i + 1).filter(needed) == kept.push(c@));
                            assert(kept.push(c@).map_values(make) =~= kept.map_values(make).push(
                                make(c@),
                            ));
                            assert(request_views(requests@) =~= request_views(before).push(
                                request@,
                            ));
                        }
                    },
                    None => {
                        assert(needed(c@));
                        return None;
                    },
                }
            } else {
                assert(!needed(c@));
            }
        } else {
            assert(!needed(c@));
        }
    }
    assert(all.take(all.len() as int) =~= all);
    Some(requests)
}

/// Plans the request for the preferred entry of a needed candidate; `None` where it
/// cannot be dealt with.
fn plan_request(base: &str, kind: ChecksumKind, c: &Candidate) -> (r: Option<EntryRequest>)
    requires
        c@.item.entries.len() > 0,
    ensures
        r is Some <==> {
            &&& variant_defined(preferred_path(c@))
            &&& is_supported(c@, entry_variant(preferred_path(c@)))
            &&& splits_at(base@ + full_path(c@.component, preferred_path(c@)), 7)
        },
        r matches Some(request) ==> request@ == request_at(base@, kind)(c@),
{
    let entry = &c.item.entries[find_preferred(&c.item.entries)];
    assert(entry@ == c@.item.entries[preferred_entry(c@.item.entries)]);
    if !has_variant_defined(entry.path.as_str()) {
        return None;
    }
    let variant = variant_of(entry.path.as_str());
    if !supports(c, &variant) {
        return None;
    }
    let preferred = preferred_request(c, &variant);
    let url = join2(base, preferred.path.as_str());
    if !url.as_str().is_char_boundary(7) {
        return None;
    }
    proof {
        if let Some(ext) = decompressed_extension(c@, variant_view(variant)) {
            lemma_extension_is_trimmed(base@, c@, ext->0);
        }
    }
    Some(request_entry(base, kind, preferred))
}

/// Tests whether an index of the kind `variant` that is fetched for `c` can be
/// decompressed, where that is to be done.
pub fn supports(c: &Candidate, variant: &Option<EntryVariant>) -> (r: bool)
    requires
        c@.item.entries.len() > 0,
    ensures
        r == is_supported(c@, variant_view(*variant)),
{
    if let Some(EntryVariant::Packages(ext, _)) = variant {
        let entry = &c.item.entries[find_preferred(&c.item.entries)];
        assert(entry@ == c@.item.entries[preferred_entry(c@.item.entries)]);
        let path = match c.component {
            Some(name) => join3(name, "/", entry.path.as_str()),
            None => entry.path.clone(),
        };
        if same(path.as_str(), c.item.name.as_str()) {
            return true;
        }
        match ext {
            Some(ext) => same(ext.as_str(), "xz") || same(ext.as_str(), "gz"),
            None => false,
        }
    } else {
        true
    }
}

/// The name under which a release file lists a checksum method.
pub open spec fn method_name(kind: ChecksumKind) -> Seq<char> {
    match kind {
        ChecksumKind::Sha256 => "SHA256"@,
        ChecksumKind::Sha1 => "SHA1"@,
        ChecksumKind::Md5 => "MD5Sum"@,
    }
}

/// Whether a release file lists files under a checksum method.
pub open spec fn lists_method(sums: Seq<EntryComponentsView>, kind: ChecksumKind) -> bool {
    exists|i: int| 0 <= i < sums.len() && (#[trigger] sums[i]).method == method_name(kind)
}

proof fn lemma_listed_under(sums: Seq<EntryComponentsView>, method: Seq<char>)
    ensures
        match listed_under(sums, method) {
            Some(lists) => lists.method == method && sums.contains(lists),
            None => forall|i: int| 0 <= i < sums.len() ==> (#[trigger] sums[i]).method != method,
        },
    decreases sums.len(),
{
    if sums.len() > 0 {
        let rest = sums.drop_first();
        if sums[0].method == method {
            assert(sums.contains(sums[0]));
        } else {
            lemma_listed_under(rest, method);
            match listed_under(rest, method) {
                Some(lists) => {
                    let i = rest.index_of(lists);
                    assert(sums[i + 1] == lists);
                },
                None => {
                    assert forall|i: int| 0 <= i < sums.len() implies (#[trigger] sums[i]).method
                        != method by {
                        if i > 0 {
                            assert(sums[i] == rest[i - 1]);
                        }
                    }
                },
            }
        }
    }
}

/// A release file is used by the strongest checksum method that it lists files under,
/// and is of no use where it lists files under none.
pub proof fn strongest_method_is_used(sums: Seq<EntryComponentsView>)
    ensures
        match strongest(sums) {
            Some((kind, lists)) => {
                &&& sums.contains(lists)
                &&& lists.method == method_name(kind)
                &&& kind != ChecksumKind::Sha256 ==> !lists_method(sums, ChecksumKind::Sha256)
                &&& kind == ChecksumKind::Md5 ==> !lists_method(sums, ChecksumKind::Sha1)
            },
            None => {
                &&& !lists_method(sums, ChecksumKind::Sha256)
                &&& !lists_method(sums, ChecksumKind::Sha1)
                &&& !lists_method(sums, ChecksumKind::Md5)
            },
        },
{
    lemma_listed_under(sums, "SHA256"@);
    lemma_listed_under(sums, "SHA1"@);
    lemma_listed_under(sums, "MD5Sum"@);
}

/// Every candidate belongs to a wanted component, or to none.
pub proof fn candidates_are_wanted(lists: EntryComponentsView, wanted: Seq<Seq<char>>, i: int)
    requires
        0 <= i < candidates(lists, wanted).len(),
    ensures
        candidates(lists, wanted)[i].component matches Some(name) ==> wanted.contains(name),
{
    if i < of_components(lists.components, wanted).len() {
        lemma_of_components_wanted(lists.components, wanted, i);
    }
}

proof fn lemma_of_components_wanted(
    components: Seq<ReleaseComponentView>,
    wanted: Seq<Seq<char>>,
    i: int,
)
    requires
        0 <= i < of_components(components, wanted).len(),
    ensures
        of_components(components, wanted)[i].component matches Some(name) && wanted.contains(name),
    decreases components.len(),
{
    let rest = of_components(components.drop_last(), wanted);
    if i < rest.len() {
        lemma_of_components_wanted(components.drop_last(), wanted, i);
    }
}

/// Every request is for a file that is needed on the system.
pub proof fn requests_are_for_needed_files(
    base: Seq<char>,
    kind: ChecksumKind,
    lists: EntryComponentsView,
    wanted: Seq<Seq<char>>,
    archs: Seq<Seq<char>>,
    i: int,
)
    requires
        0 <= i < entry_requests(base, kind, lists, wanted, archs).len(),
    ensures
        exists|k: int|
            0 <= k < candidates(lists, wanted).len() && is_needed(
                (#[trigger] candidates(lists, wanted)[k]).item,
                archs,
            ) && entry_requests(base, kind, lists, wanted, archs)[i] == request_at(base, kind)(
                candidates(lists, wanted)[k],
            ),
{
    let all = candidates(lists, wanted);
    let kept = selected(lists, wanted, archs);
    let c = kept[i];
    all.lemma_filter_pred(needed_on(archs), i);
    assert(kept.contains(c));
    all.lemma_filter_contains_rev(needed_on(archs), c);
    let k = all.index_of(c);
    assert(all[k] == c);
}

/// Every file that is needed on the system is requested.
pub proof fn needed_files_are_requested(
    base: Seq<char>,
    kind: ChecksumKind,
    lists: EntryComponentsView,
    wanted: Seq<Seq<char>>,
    archs: Seq<Seq<char>>,
    k: int,
)
    requires
        0 <= k < candidates(lists, wanted).len(),
        is_needed(candidates(lists, wanted)[k].item, archs),
    ensures
        entry_requests(base, kind, lists, wanted, archs).contains(
            request_at(base, kind)(candidates(lists, wanted)[k]),
        ),
{
    let all = candidates(lists, wanted);
    let kept = selected(lists, wanted, archs);
    all.lemma_filter_contains(needed_on(archs), k);
    let i = kept.index_of(all[k]);
    assert(entry_requests(base, kind, lists, wanted, archs)[i] == request_at(base, kind)(all[k]));
}

/// Whether the path of an entry ends with `suffix`.
pub open spec fn has_ending(entries: Seq<ReleaseEntryView>, suffix: Seq<char>) -> bool {
    exists|i: int| 0 <= i < entries.len() && suffix.is_suffix_of((#[trigger] entries[i]).path)
}

proof fn lemma_first_ending(entries: Seq<ReleaseEntryView>, suffix: Seq<char>)
    ensures
        first_ending(entries, suffix) <= entries.len(),
        first_ending(entries, suffix) < entries.len() ==> suffix.is_suffix_of(
            entries[first_ending(entries, suffix) as int].path,
        ),
        first_ending(entries, suffix) < entries.len() <==> has_ending(entries, suffix),
    decreases entries.len(),
{
    if entries.len() > 0 {
        let rest = entries.drop_first();
        if suffix.is_suffix_of(entries[0].path) {
            assert(has_ending(entries, suffix));
        } else {
            lemma_first_ending(rest, suffix);
            if has_ending(rest, suffix) {
                let i = choose|i: int|
                    0 <= i < rest.len() && suffix.is_suffix_of((#[trigger] rest[i]).path);
                assert(entries[i + 1] == rest[i]);
            }
            if has_ending(entries, suffix) {
                let i = choose|i: int|
                    0 <= i < entries.len() && suffix.is_suffix_of((#[trigger] entries[i]).path);
                assert(rest[i - 1] == entries[i]);
            }
        }
    }
}

/// Of the entries of an item, one that is compressed with XZ is fetched where there is
/// one, and otherwise one that is compressed with GZIP where there is one.
pub proof fn best_compression_is_preferred(entries: Seq<ReleaseEntryView>)
    requires
        entries.len() > 0,
    ensures
        0 <= preferred_entry(entries) < entries.len(),
        has_ending(entries, ".xz"@) ==> ".xz"@.is_suffix_of(
            entries[preferred_entry(entries)].path,
        ),
        !has_ending(entries, ".xz"@) && has_ending(entries, ".gz"@) ==> ".gz"@.is_suffix_of(
            entries[preferred_entry(entries)].path,
        ),
{
    lemma_first_ending(entries, ".xz"@);
    lemma_first_ending(entries, ".gz"@);
}

/// The checksum of a decompressed index is that of the entry with the shortest path.
pub proof fn shortest_entry_is_shortest(entries: Seq<ReleaseEntryView>, i: int)
    requires
        0 <= i < entries.len(),
    ensures
        0 <= shortest_entry(entries) < entries.len(),
        encode_utf8(entries[shortest_entry(entries)].path).len() <= encode_utf8(
            entries[i].path,
        ).len(),
    decreases entries.len(),
{
    if entries.len() > 1 {
        let rest = entries.drop_last();
        let s = shortest_entry(rest);
        if i < rest.len() {
            shortest_entry_is_shortest(rest, i);
            assert(rest[i] == entries[i]);
        } else {
            shortest_entry_is_shortest(rest, 0);
        }
        assert(rest[s] == entries[s]);
    }
}

/// The checksums that a fetched file is held to are those that the release file lists
/// for the entries of its item.
pub proof fn requested_checksums_are_listed(base: Seq<char>, kind: ChecksumKind, c: CandidateView)
    requires
        c.item.entries.len() > 0,
    ensures
        ({
            let request = request_at(base, kind)(c);
            &&& exists|i: int|
                0 <= i < c.item.entries.len() && (#[trigger] c.item.entries[i]).sum
                    == request.fetched_checksum
            &&& exists|i: int|
                0 <= i < c.item.entries.len() && (#[trigger] c.item.entries[i]).sum
                    == request.dest_checksum
        }),
{
    best_compression_is_preferred(c.item.entries);
    shortest_entry_is_shortest(c.item.entries, 0);
    let request = request_at(base, kind)(c);
    let fetched = c.item.entries[preferred_entry(c.item.entries)];
    let shortest = c.item.entries[shortest_entry(c.item.entries)];
    assert(request.fetched_checksum == fetched.sum);
    assert(request.dest_checksum == fetched.sum || request.dest_checksum == shortest.sum);
}

/// The names under which files are stored hold no slash, so that all of them stand in
/// one directory.
pub proof fn stored_names_have_no_slash(url: Seq<char>)
    ensures
        !file_name(url).contains('/'),
{
    reveal_strlit("/");
    reveal_strlit("_");
    assert("/"@ =~= seq!['/']);
    assert("_"@ =~= seq!['_']);
    crate::text::lemma_replace_char(after_bytes(url, 7), '/', '_');
}

/// A file that is reached by HTTP is stored under what follows the scheme of its URL,
/// with an underscore for each slash.
pub proof fn stored_name_follows_scheme(rest: Seq<char>)
    ensures
        splits_at("http://"@ + rest, 7),
        file_name("http://"@ + rest) == rest.map_values(
            |c: char|
                if c == '/' {
                    '_'
                } else {
                    c
                },
        ),
{
    reveal_strlit("http://");
    reveal_strlit("/");
    reveal_strlit("_");
    let url = "http://"@ + rest;
    assert forall|i: int| 0 <= i < 7 implies crate::text::is_one_byte(#[trigger] url[i]) by {
        assert(url[i] == "http://"@[i]);
    }
    crate::text::lemma_after_one_byte_chars(url, 7);
    assert(url.skip(7) =~= rest);
    assert("/"@ =~= seq!['/']);
    assert("_"@ =~= seq!['_']);
    crate::text::lemma_replace_char(rest, '/', '_');
}

proof fn lemma_items_of_components(
    components: Seq<ReleaseComponentView>,
    wanted: Seq<Seq<char>>,
    i: int,
    j: int,
)
    requires
        0 <= i < components.len(),
        wanted.contains(components[i].name),
        0 <= j < components[i].items.len(),
    ensures
        of_components(components, wanted).contains(
            CandidateView { component: Some(components[i].name), item: components[i].items[j] },
        ),
    decreases components.len(),
{
    let last = components.last();
    let rest = of_components(components.drop_last(), wanted);
    let c = CandidateView { component: Some(components[i].name), item: components[i].items[j] };
    let all = of_components(components, wanted);
    if i == components.len() - 1 {
        assert(of_component(last)[j] == c);
        assert(all[rest.len() + j] == c);
    } else {
        lemma_items_of_components(components.drop_last(), wanted, i, j);
        let k = rest.index_of(c);
        assert(all[k] == c);
    }
}

proof fn lemma_origin_of_items(
    components: Seq<ReleaseComponentView>,
    wanted: Seq<Seq<char>>,
    m: int,
)
    requires
        0 <= m < of_components(components, wanted).len(),
    ensures
        exists|i: int, j: int|
            0 <= i < components.len() && 0 <= j < components[i].items.len() && wanted.contains(
                components[i].name,
            ) && of_components(components, wanted)[m] == (CandidateView {
                component: Some(components[i].name),
                item: #[trigger] components[i].items[j],
            }),
    decreases components.len(),
{
    let shorter = components.drop_last();
    let rest = of_components(shorter, wanted);
    if m < rest.len() {
        lemma_origin_of_items(shorter, wanted, m);
        let (i, j) = choose|i: int, j: int|
            0 <= i < shorter.len() && 0 <= j < shorter[i].items.len() && wanted.contains(
                shorter[i].name,
            ) && rest[m] == (CandidateView {
                component: Some(shorter[i].name),
                item: #[trigger] shorter[i].items[j],
            });
        assert(components[i].items[j] == shorter[i].items[j]);
    } else {
        let i = components.len() - 1;
        let j = m - rest.len();
        assert(of_components(components, wanted)[m] == of_component(components.last())[j]);
        assert(components[i].items[j] == components.last().items[j]);
    }
}

/// The items to choose from are those of every wanted component and those that belong to none, and
/// no others.
pub proof fn candidates_are_the_wanted_items(
    lists: EntryComponentsView,
    wanted: Seq<Seq<char>>,
    i: int,
    j: int,
    m: int,
)
    ensures
        0 <= i < lists.components.len() && 0 <= j < lists.components[i].items.len()
            && wanted.contains(lists.components[i].name) ==> candidates(lists, wanted).contains(
            CandidateView {
                component: Some(lists.components[i].name),
                item: lists.components[i].items[j],
            },
        ),
        0 <= j < lists.base.len() ==> candidates(lists, wanted).contains(
            CandidateView { component: None, item: lists.base[j] },
        ),
        0 <= m < candidates(lists, wanted).len() ==> ({
            ||| exists|i: int, j: int|
                0 <= i < lists.components.len() && 0 <= j < lists.components[i].items.len()
                    && wanted.contains(lists.components[i].name) && candidates(lists, wanted)[m]
                    == (CandidateView {
                    component: Some(lists.components[i].name),
                    item: #[trigger] lists.components[i].items[j],
                })
            ||| exists|j: int|
                0 <= j < lists.base.len() && candidates(lists, wanted)[m] == (CandidateView {
                    component: None,
                    item: #[trigger] lists.base[j],
                })
        }),
{
    let all = candidates(lists, wanted);
    let first = of_components(lists.components, wanted);
    if 0 <= i < lists.components.len() && 0 <= j < lists.components[i].items.len()
        && wanted.contains(lists.components[i].name) {
        lemma_items_of_components(lists.components, wanted, i, j);
        let c = CandidateView {
            component: Some(lists.components[i].name),
            item: lists.components[i].items[j],
        };
        let k = first.index_of(c);
        assert(all[k] == c);
    }
    if 0 <= j < lists.base.len() {
        assert(all[first.len() + j] == (CandidateView { component: None, item: lists.base[j] }));
    }
    if 0 <= m < all.len() {
        if m < first.len() {
            lemma_origin_of_items(lists.components, wanted, m);
        } else {
            let k = m - first.len();
            assert(all[m] == (CandidateView { component: None, item: lists.base[k] }));
        }
    }
}

/// Among the entries of an item, the first that is compressed with XZ is preferred; where there is
/// none, the first that is compressed with GZIP; and where there is none either, the last.
pub proof fn first_of_the_best_compression_is_preferred(entries: Seq<ReleaseEntryView>, k: int)
    requires
        0 <= k < entries.len(),
        ({
            let no_xz = forall|i: int|
                0 <= i < entries.len() ==> !".xz"@.is_suffix_of((#[trigger] entries[i]).path);
            let no_gz = forall|i: int|
                0 <= i < entries.len() ==> !".gz"@.is_suffix_of((#[trigger] entries[i]).path);
            ||| ".xz"@.is_suffix_of(entries[k].path) && forall|i: int|
                0 <= i < k ==> !".xz"@.is_suffix_of((#[trigger] entries[i]).path)
            ||| no_xz && ".gz"@.is_suffix_of(entries[k].path) && forall|i: int|
                0 <= i < k ==> !".gz"@.is_suffix_of((#[trigger] entries[i]).path)
            ||| no_xz && no_gz && k == entries.len() - 1
        }),
    ensures
        preferred_entry(entries) == k,
{
    let len = entries.len() as int;
    if ".xz"@.is_suffix_of(entries[k].path) && forall|i: int|
        0 <= i < k ==> !".xz"@.is_suffix_of((#[trigger] entries[i]).path) {
        lemma_first_ending_at(entries, ".xz"@, k);
    } else {
        lemma_first_ending_at(entries, ".xz"@, len);
        if ".gz"@.is_suffix_of(entries[k].path) && forall|i: int|
            0 <= i < k ==> !".gz"@.is_suffix_of((#[trigger] entries[i]).path) {
            lemma_first_ending_at(entries, ".gz"@, k);
        } else {
            lemma_first_ending_at(entries, ".gz"@, len);
        }
    }
}

/// Among the entries of an item, the first of those whose paths take the fewest bytes is taken for
/// the one that is not compressed.
pub proof fn first_of_the_shortest_is_taken(entries: Seq<ReleaseEntryView>, s: int)
    requires
        0 <= s < entries.len(),
        forall|i: int|
            0 <= i < entries.len() ==> encode_utf8(entries[s].path).len() <= encode_utf8(
                (#[trigger] entries[i]).path,
            ).len(),
        forall|i: int|
            0 <= i < s ==> encode_utf8(entries[s].path).len() < encode_utf8(
                (#[trigger] entries[i]).path,
            ).len(),
    ensures
        shortest_entry(entries) == s,
    decreases entries.len(),
{
    if entries.len() > 1 {
        let rest = entries.drop_last();
        if s < rest.len() {
            assert forall|i: int| 0 <= i < rest.len() implies encode_utf8(rest[s].path).len()
                <= encode_utf8((#[trigger] rest[i]).path).len() by {
                assert(rest[i] == entries[i]);
            }
            assert forall|i: int| 0 <= i < s implies encode_utf8(rest[s].path).len() < encode_utf8(
                (#[trigger] rest[i]).path,
            ).len() by {
                assert(rest[i] == entries[i]);
            }
            first_of_the_shortest_is_taken(rest, s);
            assert(entries.last() == entries[entries.len() - 1]);
        } else {
            shortest_entry_is_shortest(rest, 0);
            let t = shortest_entry(rest);
            assert(rest[t] == entries[t]);
        }
    }
}

/// What is fetched for an item: the preferred entry, under its component, with its checksum and
/// size. A `Packages` index whose path is not the name of its item is decompressed afterwards, by
/// the compression that its extension names, and is then held to the checksum of the entry that is
/// taken for the one that is not compressed.
pub proof fn preferred_entry_is_fetched(
    c: CandidateView,
    variant: Option<EntryVariantView>,
    k: int,
    s: int,
)
    requires
        0 <= k < c.item.entries.len(),
        preferred_entry(c.item.entries) == k,
        shortest_entry(c.item.entries) == s,
    ensures
        ({
            let p = preferred(c, variant);
            let entry = c.item.entries[k];
            &&& p.checksum == entry.sum
            &&& p.size == entry.size
            &&& c.component is None ==> p.path == entry.path
            &&& c.component matches Some(name) ==> p.path == name + "/"@ + entry.path
            &&& match variant {
                Some(EntryVariantView::Packages(ext, _)) => if p.path == c.item.name {
                    p.compression is None && p.checksum_decompressed is None && p.path_trim == 0
                } else {
                    &&& p.checksum_decompressed == Some(c.item.entries[s].sum)
                    &&& p.path_trim == 3
                    &&& ext == Some("xz"@) ==> p.compression == Some(Compression::Xz)
                    &&& ext == Some("gz"@) ==> p.compression == Some(Compression::Gz)
                },
                _ => p.compression is None && p.checksum_decompressed is None && p.path_trim == 0,
            }
        }),
{
    reveal_strlit("xz");
    reveal_strlit("gz");
    assert("xz"@[0] != "gz"@[0]);
}

/// The request for a file: it is fetched from below the address of the repository, and kept under
/// what follows the first seven bytes of its address, with an underscore for each slash. It is
/// held to its own checksum, and what is kept of it to that of the decompressed file where it is
/// decompressed; then the extension is no part of the name.
pub proof fn request_follows_from_the_entry(
    base: Seq<char>,
    kind: ChecksumKind,
    p: PreferredRequestView,
    scheme: Seq<char>,
    rest: Seq<char>,
)
    requires
        base + p.path == scheme + rest,
        encode_utf8(scheme).len() == 7,
    ensures
        ({
            let r = entry_request(base, kind, p);
            let name = rest.map_values(
                |c: char|
                    if c == '/' {
                        '_'
                    } else {
                        c
                    },
            );
            &&& r.url == base + p.path
            &&& r.kind == kind
            &&& r.fetched_checksum == p.checksum
            &&& p.checksum_decompressed is None ==> r.dest_checksum == p.checksum
            &&& p.checksum_decompressed matches Some(sum) ==> r.dest_checksum == sum
            &&& r.compression == p.compression
            &&& r.partial == "var/lib/apt/lists/partial/"@ + name
            &&& p.path_trim == 0 ==> r.dest == "var/lib/apt/lists/"@ + name
            &&& r.dest == "var/lib/apt/lists/"@ + name.take(name.len() - p.path_trim)
        }),
{
    reveal_strlit("/");
    reveal_strlit("_");
    crate::text::text_is_parted_by_bytes(scheme, rest);
    assert("/"@ =~= seq!['/']);
    assert("_"@ =~= seq!['_']);
    crate::text::lemma_replace_char(rest, '/', '_');
    let name = file_name(base + p.path);
    assert(name.take(name.len() as int) =~= name);
}

/// The file of every item of a wanted component is requested where the kind of its first entry
/// calls for it: an index of any of the architectures, wherever that stands among them, a set of
/// icons, or a file of the source packages. What is fetched is one of the entries of the item.
pub proof fn files_of_wanted_components_are_requested(
    base: Seq<char>,
    kind: ChecksumKind,
    lists: EntryComponentsView,
    wanted: Seq<Seq<char>>,
    archs: Seq<Seq<char>>,
    i: int,
    j: int,
)
    requires
        0 <= i < lists.components.len(),
        wanted.contains(lists.components[i].name),
        0 <= j < lists.components[i].items.len(),
        lists.components[i].items[j].entries.len() > 0,
        match entry_variant(lists.components[i].items[j].entries[0].path) {
            Some(EntryVariantView::Packages(_, arch)) => archs.contains(arch),
            Some(EntryVariantView::BinaryRelease(arch)) => archs.contains(arch),
            Some(EntryVariantView::Contents(arch)) => archs.contains(arch),
            Some(EntryVariantView::Dep11Components(arch)) => archs.contains(arch),
            Some(EntryVariantView::Dep11Icons) => true,
            Some(EntryVariantView::Source) => true,
            _ => false,
        },
    ensures
        ({
            let requests = entry_requests(base, kind, lists, wanted, archs);
            let component = lists.components[i];
            let entries = component.items[j].entries;
            exists|r: int, k: int|
                0 <= r < requests.len() && 0 <= k < entries.len() && k == preferred_entry(entries)
                    && (#[trigger] requests[r]).url == base + (component.name + "/"@
                    + #[trigger] entries[k].path) && requests[r].fetched_checksum == entries[k].sum
                    && requests[r].kind == kind
        }),
{
    let requests = entry_requests(base, kind, lists, wanted, archs);
    let component = lists.components[i];
    let c = CandidateView { component: Some(component.name), item: component.items[j] };
    let entries = c.item.entries;
    candidates_are_the_wanted_items(lists, wanted, i, j, 0);
    let m = candidates(lists, wanted).index_of(c);
    assert(candidates(lists, wanted)[m] == c);
    needed_files_are_requested(base, kind, lists, wanted, archs, m);
    best_compression_is_preferred(entries);
    let k = preferred_entry(entries);
    let request = request_at(base, kind)(c);
    let r = requests.index_of(request);
    assert(requests[r] == request);
    assert(requests[r].url == base + (component.name + "/"@ + entries[k].path));
}

/// The same of the items that belong to no component.
pub proof fn files_of_no_component_are_requested(
    base: Seq<char>,
    kind: ChecksumKind,
    lists: EntryComponentsView,
    wanted: Seq<Seq<char>>,
    archs: Seq<Seq<char>>,
    j: int,
)
    requires
        0 <= j < lists.base.len(),
        lists.base[j].entries.len() > 0,
        match entry_variant(lists.base[j].entries[0].path) {
            Some(EntryVariantView::Packages(_, arch)) => archs.contains(arch),
            Some(EntryVariantView::BinaryRelease(arch)) => archs.contains(arch),
            Some(EntryVariantView::Contents(arch)) => archs.contains(arch),
            Some(EntryVariantView::Dep11Components(arch)) => archs.contains(arch),
            Some(EntryVariantView::Dep11Icons) => true,
            Some(EntryVariantView::Source) => true,
            _ => false,
        },
    ensures
        ({
            let requests = entry_requests(base, kind, lists, wanted, archs);
            let entries = lists.base[j].entries;
            exists|r: int, k: int|
                0 <= r < requests.len() && 0 <= k < entries.len() && k == preferred_entry(entries)
                    && (#[trigger] requests[r]).url == base + #[trigger] entries[k].path
                    && requests[r].fetched_checksum == entries[k].sum && requests[r].kind == kind
        }),
{
    let requests = entry_requests(base, kind, lists, wanted, archs);
    let c = CandidateView { component: None, item: lists.base[j] };
    let entries = c.item.entries;
    candidates_are_the_wanted_items(lists, wanted, 0, j, 0);
    let m = candidates(lists, wanted).index_of(c);
    assert(candidates(lists, wanted)[m] == c);
    needed_files_are_requested(base, kind, lists, wanted, archs, m);
    best_compression_is_preferred(entries);
    let k = preferred_entry(entries);
    let request = request_at(base, kind)(c);
    let r = requests.index_of(request);
    assert(requests[r] == request);
    assert(requests[r].url == base + entries[k].path);
}

/// Nothing else is requested: every request is for an item of a wanted component, or of none, and
/// the kind of its first entry calls for it.
pub proof fn nothing_else_is_requested(
    base: Seq<char>,
    kind: ChecksumKind,
    lists: EntryComponentsView,
    wanted: Seq<Seq<char>>,
    archs: Seq<Seq<char>>,
    r: int,
) -> (c: CandidateView)
    requires
        0 <= r < entry_requests(base, kind, lists, wanted, archs).len(),
    ensures
        ({
            ||| exists|i: int, j: int|
                0 <= i < lists.components.len() && 0 <= j < lists.components[i].items.len()
                    && wanted.contains(lists.components[i].name) && c == (CandidateView {
                    component: Some(lists.components[i].name),
                    item: #[trigger] lists.components[i].items[j],
                })
            ||| exists|j: int|
                0 <= j < lists.base.len() && c == (CandidateView {
                    component: None,
                    item: #[trigger] lists.base[j],
                })
        }),
        c.item.entries.len() > 0,
        match entry_variant(c.item.entries[0].path) {
            Some(EntryVariantView::Packages(_, arch)) => archs.contains(arch),
            Some(EntryVariantView::BinaryRelease(arch)) => archs.contains(arch),
            Some(EntryVariantView::Contents(arch)) => archs.contains(arch),
            Some(EntryVariantView::Dep11Components(arch)) => archs.contains(arch),
            Some(EntryVariantView::Dep11Icons) => true,
            Some(EntryVariantView::Source) => true,
            _ => false,
        },
        ({
            let entry = c.item.entries[preferred_entry(c.item.entries)];
            entry_requests(base, kind, lists, wanted, archs)[r] == entry_request(
                base,
                kind,
                preferred(c, entry_variant(entry.path)),
            )
        }),
{
    requests_are_for_needed_files(base, kind, lists, wanted, archs, r);
    let m = choose|m: int|
        0 <= m < candidates(lists, wanted).len() && is_needed(
            (#[trigger] candidates(lists, wanted)[m]).item,
            archs,
        ) && entry_requests(base, kind, lists, wanted, archs)[r] == request_at(base, kind)(
            candidates(lists, wanted)[m],
        );
    candidates_are_the_wanted_items(lists, wanted, 0, 0, m);
    candidates(lists, wanted)[m]
}

/// What is requested does not depend on the order of the architectures or of the wanted
/// components, nor on how often one of them is named.
pub proof fn order_of_architectures_does_not_matter(
    base: Seq<char>,
    kind: ChecksumKind,
    lists: EntryComponentsView,
    wanted: Seq<Seq<char>>,
    archs: Seq<Seq<char>>,
    other_wanted: Seq<Seq<char>>,
    other_archs: Seq<Seq<char>>,
)
    requires
        forall|name: Seq<char>| #[trigger] wanted.contains(name) <==> other_wanted.contains(name),
        forall|arch: Seq<char>| #[trigger] archs.contains(arch) <==> other_archs.contains(arch),
    ensures
        entry_requests(base, kind, lists, wanted, archs) == entry_requests(
            base,
            kind,
            lists,
            other_wanted,
            other_archs,
        ),
{
    lemma_components_by_membership(lists.components, wanted, other_wanted);
    assert forall|c: CandidateView| needed_on(archs)(c) == #[trigger] needed_on(other_archs)(c) by {}
    assert(needed_on(archs) =~= needed_on(other_archs));
}

proof fn lemma_components_by_membership(
    components: Seq<ReleaseComponentView>,
    wanted: Seq<Seq<char>>,
    other: Seq<Seq<char>>,
)
    requires
        forall|name: Seq<char>| #[trigger] wanted.contains(name) <==> other.contains(name),
    ensures
        of_components(components, wanted) == of_components(components, other),
    decreases components.len(),
{
    if components.len() > 0 {
        lemma_components_by_membership(components.drop_last(), wanted, other);
        assert(wanted.contains(components.last().name) <==> other.contains(
            components.last().name,
        ));
    }
}

proof fn lemma_filter_join(a: Seq<CandidateView>, b: Seq<CandidateView>, archs: Seq<Seq<char>>)
    ensures
        (a + b).filter(needed_on(archs)) == a.filter(needed_on(archs)) + b.filter(needed_on(archs)),
{
    Seq::filter_distributes_over_add(a, b, needed_on(archs));
}

proof fn lemma_components_join(
    a: Seq<ReleaseComponentView>,
    b: Seq<ReleaseComponentView>,
    wanted: Seq<Seq<char>>,
)
    ensures
        of_components(a + b, wanted) == of_components(a, wanted) + of_components(b, wanted),
    decreases b.len(),
{
    if b.len() == 0 {
        assert(a + b =~= a);
        assert(of_components(a, wanted) + of_components(b, wanted) =~= of_components(a, wanted));
    } else {
        let all = a + b;
        assert(all.last() == b.last());
        assert(all.drop_last() =~= a + b.drop_last());
        lemma_components_join(a, b.drop_last(), wanted);
        assert(of_components(all, wanted) =~= of_components(a, wanted) + of_components(b, wanted));
    }
}

/// The requests come in the order in which the items are listed: those of the components in turn,
/// then those that belong to none. Each part of a list is dealt with for itself, so that none is
/// requested twice.
pub proof fn requests_come_in_the_order_of_the_lists(
    base: Seq<char>,
    kind: ChecksumKind,
    method: Seq<char>,
    first: Seq<ReleaseComponentView>,
    second: Seq<ReleaseComponentView>,
    items: Seq<ReleaseItemView>,
    further: Seq<ReleaseItemView>,
    wanted: Seq<Seq<char>>,
    archs: Seq<Seq<char>>,
)
    ensures
        ({
            let of = |components: Seq<ReleaseComponentView>, items: Seq<ReleaseItemView>|
                entry_requests(
                    base,
                    kind,
                    EntryComponentsView { method, base: items, components },
                    wanted,
                    archs,
                );
            of(first + second, items + further) == of(first, seq![]) + of(second, seq![]) + of(
                seq![],
                items,
            ) + of(seq![], further)
        }),
{
    let make = request_at(base, kind);
    let test = needed_on(archs);
    let a = of_components(first, wanted);
    let b = of_components(second, wanted);
    let c = of_base(items);
    let d = of_base(further);
    let none = of_components(seq![], wanted);
    let nothing = of_base(seq![]);
    lemma_components_join(first, second, wanted);
    assert(of_base(items + further) =~= c + d);
    assert(none =~= Seq::<CandidateView>::empty());
    assert(nothing =~= Seq::<CandidateView>::empty());
    assert(a + nothing =~= a && b + nothing =~= b && none + c =~= c && none + d =~= d);
    lemma_filter_join(a + b, c + d, archs);
    lemma_filter_join(a, b, archs);
    lemma_filter_join(c, d, archs);
    let whole = (a + b + (c + d)).filter(test);
    assert(whole == a.filter(test) + b.filter(test) + (c.filter(test) + d.filter(test)));
    assert(whole.map_values(make) =~= a.filter(test).map_values(make) + b.filter(test).map_values(
        make,
    ) + c.filter(test).map_values(make) + d.filter(test).map_values(make));
}

/// A component is dealt with item by item, where it is wanted; where it is not, nothing of it is
/// requested. For a single item there is one request where the kind of its first entry calls for
/// it, and none otherwise.
pub proof fn components_are_dealt_with_item_by_item(
    base: Seq<char>,
    kind: ChecksumKind,
    method: Seq<char>,
    name: Seq<char>,
    items: Seq<ReleaseItemView>,
    item: ReleaseItemView,
    wanted: Seq<Seq<char>>,
    archs: Seq<Seq<char>>,
)
    ensures
        ({
            let of = |items: Seq<ReleaseItemView>|
                entry_requests(
                    base,
                    kind,
                    EntryComponentsView {
                        method,
                        base: seq![],
                        components: seq![ReleaseComponentView { name, items }],
                    },
                    wanted,
                    archs,
                );
            let alone = entry_requests(
                base,
                kind,
                EntryComponentsView { method, base: seq![item], components: seq![] },
                wanted,
                archs,
            );
            let called_for = item.entries.len() > 0 && match entry_variant(item.entries[0].path) {
                Some(EntryVariantView::Packages(_, arch)) => archs.contains(arch),
                Some(EntryVariantView::BinaryRelease(arch)) => archs.contains(arch),
                Some(EntryVariantView::Contents(arch)) => archs.contains(arch),
                Some(EntryVariantView::Dep11Components(arch)) => archs.contains(arch),
                Some(EntryVariantView::Dep11Icons) => true,
                Some(EntryVariantView::Source) => true,
                _ => false,
            };
            &&& of(items.push(item)) == of(items) + of(seq![item])
            &&& of(seq![item]).len() == if called_for && wanted.contains(name) {
                1nat
            } else {
                0nat
            }
            &&& alone.len() == if called_for {
                1nat
            } else {
                0nat
            }
            &&& !wanted.contains(name) ==> of(items) == Seq::<EntryRequestView>::empty()
        }),
{
    let test = needed_on(archs);
    let make = request_at(base, kind);
    let c = CandidateView { component: Some(name), item };
    let d = CandidateView { component: None, item };
    let some = |items: Seq<ReleaseItemView>| of_component(ReleaseComponentView { name, items });
    lemma_one_component(name, items, wanted);
    lemma_one_component(name, items.push(item), wanted);
    lemma_one_component(name, seq![item], wanted);
    assert(some(seq![item]) =~= seq![c]);
    assert(some(items.push(item)) =~= some(items) + some(seq![item]));
    lemma_filter_join(some(items), some(seq![item]), archs);
    reveal_with_fuel(Seq::filter, 3);
    assert(seq![c].drop_last() =~= Seq::<CandidateView>::empty());
    assert(seq![d].drop_last() =~= Seq::<CandidateView>::empty());
    assert(of_base(seq![item]) =~= seq![d]);
    assert(of_base(seq![]) =~= Seq::<CandidateView>::empty());
    assert(Seq::<CandidateView>::empty() + seq![d] =~= seq![d]);
    let of = |items: Seq<ReleaseItemView>|
        entry_requests(
            base,
            kind,
            EntryComponentsView {
                method,
                base: seq![],
                components: seq![ReleaseComponentView { name, items }],
            },
            wanted,
            archs,
        );
    if wanted.contains(name) {
        assert(some(items) + Seq::<CandidateView>::empty() =~= some(items));
        assert(some(items.push(item)) + Seq::<CandidateView>::empty() =~= some(items.push(item)));
        assert(some(seq![item]) + Seq::<CandidateView>::empty() =~= some(seq![item]));
        assert((some(items).filter(test) + some(seq![item]).filter(test)).map_values(make) =~= some(
            items,
        ).filter(test).map_values(make) + some(seq![item]).filter(test).map_values(make));
    } else {
        let empty = Seq::<CandidateView>::empty();
        assert(empty + empty =~= empty);
        assert(of(items) =~= Seq::<EntryRequestView>::empty());
        assert(of(items.push(item)) =~= Seq::<EntryRequestView>::empty());
        assert(of(seq![item]) =~= Seq::<EntryRequestView>::empty());
        assert(of(items) + of(seq![item]) =~= Seq::<EntryRequestView>::empty());
    }
}

proof fn lemma_one_component(name: Seq<char>, items: Seq<ReleaseItemView>, wanted: Seq<Seq<char>>)
    ensures
        of_components(seq![ReleaseComponentView { name, items }], wanted) == if wanted.contains(
            name,
        ) {
            of_component(ReleaseComponentView { name, items })
        } else {
            Seq::<CandidateView>::empty()
        },
{
    let one = seq![ReleaseComponentView { name, items }];
    assert(one.last() == (ReleaseComponentView { name, items }));
    assert(one.drop_last() =~= Seq::<ReleaseComponentView>::empty());
    assert(of_components(Seq::<ReleaseComponentView>::empty(), wanted) =~= Seq::<
        CandidateView,
    >::empty());
    let none = Seq::<CandidateView>::empty();
    assert(none + of_component(one.last()) =~= of_component(one.last()));
}

/// The lists under `SHA256` are used where there are any, else those under `SHA1`, else those under
/// `MD5Sum`; the first of them where a method is named twice. Where none of the three is named, a
/// release file is of no use.
pub proof fn checksum_methods_are_ranked(sums: Seq<EntryComponentsView>, i: int)
    ensures
        ({
            let lacks = |method: Seq<char>, n: int|
                forall|k: int| 0 <= k < n ==> (#[trigger] sums[k]).method != method;
            let len = sums.len() as int;
            &&& 0 <= i < len && sums[i].method == "SHA256"@ && lacks("SHA256"@, i) ==> strongest(
                sums,
            ) == Some((ChecksumKind::Sha256, sums[i]))
            &&& 0 <= i < len && sums[i].method == "SHA1"@ && lacks("SHA256"@, len) && lacks(
                "SHA1"@,
                i,
            ) ==> strongest(sums) == Some((ChecksumKind::Sha1, sums[i]))
            &&& 0 <= i < len && sums[i].method == "MD5Sum"@ && lacks("SHA256"@, len) && lacks(
                "SHA1"@,
                len,
            ) && lacks("MD5Sum"@, i) ==> strongest(sums) == Some((ChecksumKind::Md5, sums[i]))
            &&& lacks("SHA256"@, len) && lacks("SHA1"@, len) && lacks("MD5Sum"@, len) ==> strongest(
                sums,
            ) is None
        }),
{
    let len = sums.len() as int;
    let lacks = |method: Seq<char>, n: int|
        forall|k: int| 0 <= k < n ==> (#[trigger] sums[k]).method != method;
    if lacks("SHA256"@, len) {
        lemma_listed_under_at(sums, "SHA256"@, len);
    }
    if lacks("SHA1"@, len) {
        lemma_listed_under_at(sums, "SHA1"@, len);
    }
    if lacks("MD5Sum"@, len) {
        lemma_listed_under_at(sums, "MD5Sum"@, len);
    }
    if 0 <= i < len {
        if sums[i].method == "SHA256"@ && lacks("SHA256"@, i) {
            lemma_listed_under_at(sums, "SHA256"@, i);
        }
        if sums[i].method == "SHA1"@ && lacks("SHA1"@, i) {
            lemma_listed_under_at(sums, "SHA1"@, i);
        }
        if sums[i].method == "MD5Sum"@ && lacks("MD5Sum"@, i) {
            lemma_listed_under_at(sums, "MD5Sum"@, i);
        }
    }
}

/// Whether an item of a component, or of none, is an ordinary one: its paths are made of characters
/// of one byte and do not end with `Translation`, and a `Packages` index among them that is to be
/// decompressed is compressed with XZ or GZIP.
pub open spec fn is_ordinary(component: Option<Seq<char>>, item: ReleaseItemView) -> bool {
    forall|k: int|
        0 <= k < item.entries.len() ==> {
            let path = (#[trigger] item.entries[k]).path;
            &&& forall|n: int| 0 <= n < path.len() ==> #[trigger] path[n] as int <= 127
            &&& !"Translation"@.is_suffix_of(path)
            &&& entry_variant(path) matches Some(EntryVariantView::Packages(ext, _)) ==> {
                ||| ext == Some("xz"@)
                ||| ext == Some("gz"@)
                ||| component is None && path == item.name
                ||| component matches Some(name) && name + "/"@ + path == item.name
            }
        }
}

/// Ordinary items can be dealt with, where the address of the repository starts with seven
/// characters of one byte each, as one that is reached by HTTP does.
pub proof fn ordinary_items_can_be_dealt_with(
    base: Seq<char>,
    lists: EntryComponentsView,
    wanted: Seq<Seq<char>>,
    archs: Seq<Seq<char>>,
)
    requires
        base.len() >= 7,
        forall|i: int| 0 <= i < 7 ==> #[trigger] base[i] as int <= 127,
        forall|i: int, j: int|
            0 <= i < lists.components.len() && 0 <= j < lists.components[i].items.len()
                && wanted.contains(lists.components[i].name) ==> is_ordinary(
                Some(lists.components[i].name),
                #[trigger] lists.components[i].items[j],
            ),
        forall|j: int| 0 <= j < lists.base.len() ==> is_ordinary(None, #[trigger] lists.base[j]),
    ensures
        all_fetchable(base, lists, wanted, archs),
{
    let all = candidates(lists, wanted);
    assert forall|m: int| 0 <= m < all.len() implies is_fetchable(
        base,
        #[trigger] all[m],
        archs,
    ) by {
        let c = all[m];
        candidates_are_the_wanted_items(lists, wanted, 0, 0, m);
        assert(is_ordinary(c.component, c.item));
        let entries = c.item.entries;
        if entries.len() > 0 {
            assert(entries[0].path == entries[0].path);
            crate::release::ordinary_paths_can_be_told(entries[0].path);
            best_compression_is_preferred(entries);
            let k = preferred_entry(entries);
            let path = entries[k].path;
            crate::release::ordinary_paths_can_be_told(path);
            let url = base + full_path(c.component, path);
            assert forall|i: int| 0 <= i < 7 implies crate::text::is_one_byte(#[trigger] url[i]) by {
                assert(url[i] == base[i]);
            }
            crate::text::lemma_after_one_byte_chars(url, 7);
        }
    }
}

/// Of an item that is dealt with, the kind of its first entry can be told; and where that calls for
/// the item, the kind of the preferred entry can be told, the index is compressed with XZ or GZIP
/// if it is to be decompressed, and its address can be parted after seven bytes.
pub proof fn items_that_are_dealt_with_can_be_fetched(
    base: Seq<char>,
    lists: EntryComponentsView,
    wanted: Seq<Seq<char>>,
    archs: Seq<Seq<char>>,
    c: CandidateView,
)
    requires
        all_fetchable(base, lists, wanted, archs),
        candidates(lists, wanted).contains(c),
        c.item.entries.len() > 0,
    ensures
        variant_defined(c.item.entries[0].path),
        match entry_variant(c.item.entries[0].path) {
            Some(EntryVariantView::Packages(_, arch)) => archs.contains(arch),
            Some(EntryVariantView::BinaryRelease(arch)) => archs.contains(arch),
            Some(EntryVariantView::Contents(arch)) => archs.contains(arch),
            Some(EntryVariantView::Dep11Components(arch)) => archs.contains(arch),
            Some(EntryVariantView::Dep11Icons) => true,
            Some(EntryVariantView::Source) => true,
            _ => false,
        } ==> {
            let path = c.item.entries[preferred_entry(c.item.entries)].path;
            let full = match c.component {
                Some(name) => name + "/"@ + path,
                None => path,
            };
            &&& variant_defined(path)
            &&& entry_variant(path) matches Some(EntryVariantView::Packages(ext, _)) ==> full
                == c.item.name || ext == Some("xz"@) || ext == Some("gz"@)
            &&& splits_at(base + full, 7)
        },
{
    let m = candidates(lists, wanted).index_of(c);
    assert(is_fetchable(base, candidates(lists, wanted)[m], archs));
}

/// A plan is made where every file can be dealt with, and holds the requests for the files that
/// are called for, one by one and field by field.
pub proof fn plan_holds_the_requests(
    base: &str,
    kind: ChecksumKind,
    lists: &EntryComponents,
    wanted: &Vec<String>,
    archs: &Vec<String>,
    r: Option<Vec<EntryRequest>>,
)
    requires
        call_ensures(plan_requests, (base, kind, lists, wanted, archs), r),
    ensures
        r is Some <==> all_fetchable(base@, lists@, texts(wanted@), texts(archs@)),
        r matches Some(requests) ==> {
            let expected = entry_requests(
                base@,
                kind,
                lists@,
                texts(wanted@),
                texts(archs@),
            );
            &&& requests@.len() == expected.len()
            &&& forall|i: int|
                0 <= i < requests@.len() ==> {
                    let q = #[trigger] requests@[i];
                    &&& q.url@ == expected[i].url
                    &&& q.dest@ == expected[i].dest
                    &&& q.partial@ == expected[i].partial
                    &&& q.kind == expected[i].kind
                    &&& q.fetched_checksum@ == expected[i].fetched_checksum
                    &&& q.dest_checksum@ == expected[i].dest_checksum
                    &&& q.compression == expected[i].compression
                }
        },
{
    if let Some(requests) = r {
        let expected = entry_requests(base@, kind, lists@, texts(wanted@), texts(archs@));
        assert forall|i: int| 0 <= i < requests@.len() implies {
            let q = #[trigger] requests@[i];
            &&& q.url@ == expected[i].url
            &&& q.dest@ == expected[i].dest
            &&& q.partial@ == expected[i].partial
            &&& q.kind == expected[i].kind
            &&& q.fetched_checksum@ == expected[i].fetched_checksum
            &&& q.dest_checksum@ == expected[i].dest_checksum
            &&& q.compression == expected[i].compression
        } by {
            assert(request_views(requests@)[i] == requests@[i]@);
        }
    }
}

/// A kind of file that comes for each architecture is needed where its own architecture is among
/// those of the system, at whatever place; icons and source files are needed in any case, and
/// translations are not.
pub proof fn kinds_are_needed_by_architecture(
    variant: &Option<EntryVariant>,
    archs: &Vec<String>,
    r: bool,
)
    requires
        call_ensures(is_kind_needed, (variant, archs), r),
    ensures
        match *variant {
            Some(EntryVariant::Packages(_, arch))
            | Some(EntryVariant::BinaryRelease(arch))
            | Some(EntryVariant::Contents(arch))
            | Some(EntryVariant::Dep11Components(arch)) => r <==> exists|i: int|
                0 <= i < archs@.len() && (#[trigger] archs@[i])@ == arch@,
            Some(EntryVariant::Dep11Icons) | Some(EntryVariant::Source) => r,
            Some(EntryVariant::I18n) | None => !r,
        },
{
    let all = texts(archs@);
    if let Some(v) = *variant {
        let arch = match v {
            EntryVariant::Packages(_, arch) => arch@,
            EntryVariant::BinaryRelease(arch) => arch@,
            EntryVariant::Contents(arch) => arch@,
            EntryVariant::Dep11Components(arch) => arch@,
            _ => Seq::empty(),
        };
        if all.contains(arch) {
            let i = all.index_of(arch);
            assert(archs@[i]@ == arch);
        }
        assert forall|i: int| 0 <= i < archs@.len() && (#[trigger] archs@[i])@ == arch implies
            all.contains(arch) by {
            assert(all[i] == arch);
        }
    }
}

/// Files are dealt with exactly where the kind of the first entry of every item can be told, and,
/// where that calls for the item, the kind of the preferred entry can be told too, an index that is
/// to be decompressed is compressed with XZ or GZIP, and its address can be parted after seven
/// bytes.
pub proof fn files_are_dealt_with_where_they_can_be(
    base: Seq<char>,
    lists: EntryComponentsView,
    wanted: Seq<Seq<char>>,
    archs: Seq<Seq<char>>,
)
    ensures
        all_fetchable(base, lists, wanted, archs) <==> forall|c: CandidateView| #[trigger]
            candidates(lists, wanted).contains(c) && c.item.entries.len() > 0 ==> {
                let called_for = match entry_variant(c.item.entries[0].path) {
                    Some(EntryVariantView::Packages(_, arch)) => archs.contains(arch),
                    Some(EntryVariantView::BinaryRelease(arch)) => archs.contains(arch),
                    Some(EntryVariantView::Contents(arch)) => archs.contains(arch),
                    Some(EntryVariantView::Dep11Components(arch)) => archs.contains(arch),
                    Some(EntryVariantView::Dep11Icons) => true,
                    Some(EntryVariantView::Source) => true,
                    _ => false,
                };
                let path = c.item.entries[preferred_entry(c.item.entries)].path;
                let full = match c.component {
                    Some(name) => name + "/"@ + path,
                    None => path,
                };
                &&& variant_defined(c.item.entries[0].path)
                &&& called_for ==> {
                    &&& variant_defined(path)
                    &&& entry_variant(path) matches Some(EntryVariantView::Packages(ext, _))
                        ==> full == c.item.name || ext == Some("xz"@) || ext == Some("gz"@)
                    &&& splits_at(base + full, 7)
                }
            },
{
    let all = candidates(lists, wanted);
    if !all_fetchable(base, lists, wanted, archs) {
        let i = choose|i: int| 0 <= i < all.len() && !is_fetchable(base, #[trigger] all[i], archs);
        assert(all.contains(all[i]));
    } else {
        assert forall|c: CandidateView| #[trigger] all.contains(c) implies is_fetchable(
            base,
            c,
            archs,
        ) by {
            let i = all.index_of(c);
            assert(is_fetchable(base, all[i], archs));
        }
    }
}

} // verus!
