//! The update of the distribution files: release files are fetched, checked and
//! parsed, and the files that they list are fetched.
use crate::command::{AptCommand, AptCommandView};
use crate::dist::checksum::FetchError;
use crate::dist::entries::{
    all_fetchable, entry_requests, file_name, find_strongest, plan_requests, request_views,
    strongest, EntryRequest, LISTS, PARTIAL,
};
use crate::dist::sources::{located_views, LocatedEntry, LocatedEntryView};
use crate::keyring::{
    clearsigned, has_known_signer, is_validly_signed, is_verifiable, refuses_signature,
    split_clearsigned, AptKeyring,
};
use crate::release::{
    header_complete, is_header_complete, read_release, refuses_release, release_sums,
    DistRelease, EntryComponents, EntryComponentsView,
};
use crate::text::{
    clone_texts, contains_text, described, describes, ends_with, join2, join3, replace,
    skip_bytes, splits_at, texts,
};
use std::sync::Arc;
use vstd::prelude::*;
use vstd::slice::slice_to_vec;
use vstd::string::*;
use vstd::utf8::*;

verus! {

/// Why an update failed.
#[allow(inconsistent_fields)]
pub enum DistUpdateError {
    /// The runtime failed.
    Tokio { what: &'static str, why: std::io::Error },
    /// A request failed.
    Request { why: reqwest::Error },
    /// `apt update` could not be run, or failed.
    AptUpdate { why: std::io::Error },
    /// A file could not be decoded.
    Decoder { why: std::io::Error },
    /// The signature of a release file was not accepted.
    GpgValidation { why: failure::Error },
    /// A local repository could not be read.
    LocalRepo { why: std::io::Error },
    /// The message of a release file is not UTF-8.
    InvalidUtf8,
    /// The message of a release file is not that of a release file.
    InvalidReleaseData { why: std::io::Error },
    /// A release file lists no files under a known checksum method.
    NoEntriesFound { repo: String },
    /// The architectures of the system could not be had.
    Architectures { why: std::io::Error },
    /// A decompressor could not be made.
    Decompressor { why: std::io::Error },
    /// A file could not be fetched, or is not the one that was asked for.
    Fetcher { why: FetchError },
    /// The work on the releases was cut short.
    FetchUpdates,
    /// Some distribution files could not be fetched.
    DistFetch,
}

/// Whether `text` says that a file could not be fetched, for the reason `why`.
pub open spec fn describes_fetch(why: FetchError, text: Seq<char>) -> bool {
    exists|words: Seq<char>| #[trigger]
        why.says(words) && text == "failed to fetch file: "@ + words
}

impl DistUpdateError {
    /// Whether `text` is the error in words. A failure of another library is described by
    /// the words of its own error.
    pub open spec fn says(self, text: Seq<char>) -> bool {
        match self {
            DistUpdateError::Tokio { what, why } => describes(
                why,
                "tokio error: failure "@ + what@ + ": "@,
                text,
            ),
            DistUpdateError::Request { why } => describes(why, "http/s request failed: "@, text),
            DistUpdateError::AptUpdate { why } => describes(
                why,
                "failed to exec 'apt update': "@,
                text,
            ),
            DistUpdateError::Decoder { why } => describes(why, "decoder error: "@, text),
            DistUpdateError::GpgValidation { why } => describes(
                why,
                "failed to validate GPG signature: "@,
                text,
            ),
            DistUpdateError::LocalRepo { why } => describes(
                why,
                "failed to read local apt repo: "@,
                text,
            ),
            DistUpdateError::InvalidUtf8 => text == "release file had invalid UTF-8"@,
            DistUpdateError::InvalidReleaseData { why } => describes(
                why,
                "invalid release data: "@,
                text,
            ),
            DistUpdateError::NoEntriesFound { repo } => text
                == "no entries were found for the repository at "@ + repo@,
            DistUpdateError::Architectures { why } => describes(
                why,
                "failed to fetch available architectures: "@,
                text,
            ),
            DistUpdateError::Decompressor { why } => describes(
                why,
                "failed to initialize decompressor: "@,
                text,
            ),
            DistUpdateError::Fetcher { why } => describes_fetch(why, text),
            DistUpdateError::FetchUpdates => text == "failed to fetch updates"@,
            DistUpdateError::DistFetch => text == "failed to fetch distribution file(s)"@,
        }
    }

    /// Puts the error in words.
    pub fn message(&self) -> (r: String)
        ensures
            self.says(r@),
    {
        match self {
            DistUpdateError::Tokio { what, why } => {
                let prefix = join3("tokio error: failure ", what, ": ");
                described(prefix.as_str(), why)
            },
            DistUpdateError::Request { why } => described("http/s request failed: ", why),
            DistUpdateError::AptUpdate { why } => described("failed to exec 'apt update': ", why),
            DistUpdateError::Decoder { why } => described("decoder error: ", why),
            DistUpdateError::GpgValidation { why } => described(
                "failed to validate GPG signature: ",
                why,
            ),
            DistUpdateError::LocalRepo { why } => described("failed to read local apt repo: ", why),
            DistUpdateError::InvalidUtf8 => "release file had invalid UTF-8".to_owned(),
            DistUpdateError::InvalidReleaseData { why } => described(
                "invalid release data: ",
                why,
            ),
            DistUpdateError::NoEntriesFound { repo } => join2(
                "no entries were found for the repository at ",
                repo.as_str(),
            ),
            DistUpdateError::Architectures { why } => described(
                "failed to fetch available architectures: ",
                why,
            ),
            DistUpdateError::Decompressor { why } => described(
                "failed to initialize decompressor: ",
                why,
            ),
            DistUpdateError::Fetcher { why } => {
                let words = why.message();
                let r = join2("failed to fetch file: ", words.as_str());
                assert(describes_fetch(*why, r@));
                r
            },
            DistUpdateError::FetchUpdates => "failed to fetch updates".to_owned(),
            DistUpdateError::DistFetch => "failed to fetch distribution file(s)".to_owned(),
        }
    }
}

/// A release file to fetch.
pub struct ReleaseFetch {
    /// If we trust the repo, we will not require a keyring.
    pub trusted: bool,
    /// The base directory of this suite's dist path.
    pub dist_path: String,
    /// Only files from these components of the release file are fetched.
    pub components: Vec<String>,
}

#[verifier::ext_equal]
pub struct ReleaseFetchView {
    pub trusted: bool,
    pub dist_path: Seq<char>,
    pub components: Seq<Seq<char>>,
}

impl View for ReleaseFetch {
    type V = ReleaseFetchView;

    open spec fn view(&self) -> ReleaseFetchView {
        ReleaseFetchView {
            trusted: self.trusted,
            dist_path: self.dist_path@,
            components: texts(self.components@),
        }
    }
}

/// A release file that was fetched.
pub struct ReleaseData {
    pub trusted: bool,
    pub base_url: String,
    /// Where the release file is kept.
    pub path: String,
    pub components: Vec<String>,
}

#[verifier::ext_equal]
pub struct ReleaseDataView {
    pub trusted: bool,
    pub base_url: Seq<char>,
    pub path: Seq<char>,
    pub components: Seq<Seq<char>>,
}

impl View for ReleaseData {
    type V = ReleaseDataView;

    open spec fn view(&self) -> ReleaseDataView {
        ReleaseDataView {
            trusted: self.trusted,
            base_url: self.base_url@,
            path: self.path@,
            components: texts(self.components@),
        }
    }
}

/// A release file that was checked and parsed.
pub struct ReleaseInfo {
    pub base_url: String,
    pub release: DistRelease,
    pub components: Vec<String>,
}

#[verifier::ext_equal]
pub struct ReleaseInfoView {
    pub base_url: Seq<char>,
    pub release: Seq<EntryComponentsView>,
    pub components: Seq<Seq<char>>,
}

impl View for ReleaseInfo {
    type V = ReleaseInfoView;

    open spec fn view(&self) -> ReleaseInfoView {
        ReleaseInfoView {
            base_url: self.base_url@,
            release: self.release@,
            components: texts(self.components@),
        }
    }
}

/// The request for a release file: from where, to where, and what is known of it.
pub struct ReleaseRequest {
    pub url: String,
    /// Where the file is kept while it is fetched.
    pub partial: String,
    pub data: ReleaseData,
}

#[verifier::ext_equal]
pub struct ReleaseRequestView {
    pub url: Seq<char>,
    pub partial: Seq<char>,
    pub data: ReleaseDataView,
}

impl View for ReleaseRequest {
    type V = ReleaseRequestView;

    open spec fn view(&self) -> ReleaseRequestView {
        ReleaseRequestView { url: self.url@, partial: self.partial@, data: self.data@ }
    }
}

/// The test that [`to_fetch`] filters by: entries that are in effect, and are not
/// about source packages.
pub open spec fn is_binary_source() -> spec_fn(LocatedEntryView) -> bool {
    |e: LocatedEntryView| e.entry.enabled && !e.entry.source
}

/// What [`to_fetch`] makes of an entry.
pub open spec fn release_of() -> spec_fn(LocatedEntryView) -> ReleaseFetchView {
    |e: LocatedEntryView|
        ReleaseFetchView {
            trusted: e.entry.options.contains("trusted=yes"@),
            dist_path: e.dist_path,
            components: e.entry.components,
        }
}

/// The release files to fetch for the entries of a source list.
pub open spec fn to_fetch(list: Seq<LocatedEntryView>) -> Seq<ReleaseFetchView> {
    list.filter(is_binary_source()).map_values(release_of())
}

/// The URL of a release file.
pub open spec fn release_url(fetch: ReleaseFetchView) -> Seq<char> {
    fetch.dist_path + "/InRelease"@
}

/// What [`release_requests`] makes of a release file.
pub open spec fn request_of() -> spec_fn(ReleaseFetchView) -> ReleaseRequestView {
    |fetch: ReleaseFetchView|
        ReleaseRequestView {
            url: release_url(fetch),
            partial: PARTIAL@ + file_name(release_url(fetch)),
            data: ReleaseDataView {
                trusted: fetch.trusted,
                base_url: fetch.dist_path,
                path: LISTS@ + file_name(release_url(fetch)),
                components: fetch.components,
            },
        }
}

/// The requests for the release files of the entries of a source list.
pub open spec fn release_requests(list: Seq<LocatedEntryView>) -> Seq<ReleaseRequestView> {
    to_fetch(list).map_values(request_of())
}

/// The requests that `requests` describes.
pub open spec fn release_request_views(requests: Seq<ReleaseRequest>) -> Seq<ReleaseRequestView> {
    requests.map_values(|r: ReleaseRequest| r@)
}

/// Whether the URL of every release file to fetch has a scheme to cut off.
pub open spec fn have_schemes(list: Seq<LocatedEntryView>) -> bool {
    forall|i: int|
        0 <= i < list.len() && is_binary_source()(#[trigger] list[i]) ==> splits_at(
            list[i].dist_path + "/InRelease"@,
            7,
        )
}

/// Tests whether the URL of every release file to fetch has a scheme to cut off.
pub fn check_schemes(list: &Vec<LocatedEntry>) -> (r: bool)
    ensures
        r == have_schemes(located_views(list@)),
{
    for i in 0..list.len()
        invariant
            have_schemes(located_views(list@).take(i as int)),
    {
        let located = &list[i];
        let ghost all = located_views(list@);
        assert(all[i as int] == located@);
        if located.entry.enabled && !located.entry.source {
            let url = join2(located.dist_path.as_str(), "/InRelease");
            if !url.as_str().is_char_boundary(7) {
                assert(is_binary_source()(all[i as int]));
                return false;
            }
        }
        assert forall|k: int| 0 <= k < i + 1 && is_binary_source()(#[trigger] all.take(i + 1)[k])
            implies splits_at(all.take(i + 1)[k].dist_path + "/InRelease"@, 7) by {
            if k < i {
                assert(all.take(i as int)[k] == all[k]);
            }
        }
    }
    assert(located_views(list@).take(list@.len() as int) == located_views(list@));
    true
}

/// Every release file that is requested belongs to an entry that is in effect and not
/// about source packages, and stands in the directory of that entry.
pub proof fn release_requests_are_for_binary_sources(list: Seq<LocatedEntryView>, i: int)
    requires
        0 <= i < release_requests(list).len(),
    ensures
        exists|k: int|
            0 <= k < list.len() && is_binary_source()(#[trigger] list[k]) && release_requests(
                list,
            )[i] == request_of()(release_of()(list[k])),
{
    let kept = list.filter(is_binary_source());
    list.lemma_filter_pred(is_binary_source(), i);
    assert(kept.contains(kept[i]));
    list.lemma_filter_contains_rev(is_binary_source(), kept[i]);
    let k = list.index_of(kept[i]);
    assert(list[k] == kept[i]);
}

/// The release file of every entry that is in effect and not about source packages is
/// requested.
pub proof fn binary_sources_are_requested(list: Seq<LocatedEntryView>, k: int)
    requires
        0 <= k < list.len(),
        is_binary_source()(list[k]),
    ensures
        release_requests(list).contains(request_of()(release_of()(list[k]))),
{
    list.lemma_filter_contains(is_binary_source(), k);
    let kept = list.filter(is_binary_source());
    let i = kept.index_of(list[k]);
    assert(release_requests(list)[i] == request_of()(release_of()(list[k])));
}

/// The release file to fetch for an entry that is in effect and not about source
/// packages.
fn release_fetch(located: &LocatedEntry) -> (r: Option<ReleaseFetch>)
    ensures
        r is Some <==> is_binary_source()(located@),
        r matches Some(fetch) ==> fetch@ == release_of()(located@),
{
    let entry = &located.entry;
    if !entry.enabled || entry.source {
        return None;
    }
    Some(
        ReleaseFetch {
            trusted: contains_text(&entry.options, "trusted=yes"),
            dist_path: located.dist_path.clone(),
            components: clone_texts(&entry.components),
        },
    )
}

/// The request for a release file.
fn release_request(fetch: ReleaseFetch) -> (r: ReleaseRequest)
    requires
        splits_at(release_url(fetch@), 7),
    ensures
        r@ == request_of()(fetch@),
{
    let url = join2(fetch.dist_path.as_str(), "/InRelease");
    let name = replace(skip_bytes(url.as_str(), 7), "/", "_");
    ReleaseRequest {
        partial: join2(PARTIAL, name.as_str()),
        data: ReleaseData {
            trusted: fetch.trusted,
            base_url: fetch.dist_path,
            path: join2(LISTS, name.as_str()),
            components: fetch.components,
        },
        url,
    }
}

/// Fetches release files.
pub struct ReleaseFetcher {
    pub keyring: Option<Arc<AptKeyring>>,
}

impl ReleaseFetcher {
    /// A fetcher without a keyring.
    pub fn new() -> (r: Self)
        ensures
            r.keyring is None,
    {
        ReleaseFetcher { keyring: None }
    }

    /// Sets the keyring that release files are checked with.
    pub fn with_keyring(self, keyring: Arc<AptKeyring>) -> (r: Self)
        ensures
            r.keyring == Some(keyring),
    {
        ReleaseFetcher { keyring: Some(keyring) }
    }

    /// Lists the release files to fetch for the entries of a source list.
    pub fn fetch_updates(&self, list: &Vec<LocatedEntry>) -> (r: Vec<ReleaseRequest>)
        requires
            have_schemes(located_views(list@)),
        ensures
            release_request_views(r@) == release_requests(located_views(list@)),
    {
        let ghost all = located_views(list@);
        let mut r: Vec<ReleaseRequest> = Vec::new();
        assert(release_requests(all.take(0)) =~= release_request_views(r@));
        for i in 0..list.len()
            invariant
                all == located_views(list@),
                have_schemes(all),
                release_request_views(r@) == release_requests(all.take(i as int)),
        {
            let ghost before = r@;
            let ghost next = all.take(i + 1);
            proof {
                assert(next.drop_last() =~= all.take(i as int));
                assert(next.last() == list@[i as int]@);
                reveal_with_fuel(Seq::filter, 2);
            }
            if let Some(fetch) = release_fetch(&list[i]) {
                assert(all[i as int] == list@[i as int]@);
                let request = release_request(fetch);
                r.push(request);
                proof {
                    let kept = all.take(i as int).filter(is_binary_source());
                    assert(next.filter(is_binary_source()) == kept.push(list@[i as int]@));
                    assert(to_fetch(next) =~= kept.map_values(release_of()).push(fetch@));
                    assert(release_requests(next) =~= release_requests(all.take(i as int)).push(
                        request@,
                    ));
                    assert(release_request_views(r@) =~= release_request_views(before).push(
                        request@,
                    ));
                }
            }
        }
        assert(all.take(all.len() as int) == all);
        r
    }

    /// Takes note of how fetching a release file went.
    pub fn fetched(&self, request: ReleaseRequest, outcome: Result<(), FetchError>) -> (r:
        ReleaseFetched)
        ensures
            r.keyring == self.keyring,
            match outcome {
                Ok(_) => r.future == Ok::<ReleaseData, DistUpdateError>(request.data),
                Err(why) => r.future == Err::<ReleaseData, DistUpdateError>(
                    DistUpdateError::Fetcher { why },
                ),
            },
    {
        let keyring = match &self.keyring {
            Some(keyring) => Some(keyring.clone()),
            None => None,
        };
        match outcome {
            Ok(_) => ReleaseFetched::new(Ok(request.data), keyring),
            Err(why) => ReleaseFetched::new(Err(DistUpdateError::Fetcher { why }), keyring),
        }
    }
}

/// The outcome of fetching a release file, and the keyring to check it with.
pub struct ReleaseFetched {
    pub future: Result<ReleaseData, DistUpdateError>,
    pub keyring: Option<Arc<AptKeyring>>,
}

/// What a file that holds `bytes` is as text; `None` where it is not UTF-8.
pub open spec fn text_of_bytes(bytes: Seq<u8>) -> Option<Seq<char>> {
    if valid_utf8(bytes) {
        Some(decode_utf8(bytes))
    } else {
        None
    }
}

/// Converts bytes to text: `String::from_utf8`. It gives the text that the bytes
/// encode, and refuses bytes that are not UTF-8.
#[verifier::external_body]
fn string_from_utf8(bytes: Vec<u8>) -> (r: Option<String>)
    ensures
        r matches Some(text) ==> text_of_bytes(bytes@) == Some(text@),
        r is None ==> text_of_bytes(bytes@) is None,
{
    String::from_utf8(bytes).ok()
}

/// Whether `text`, the message of a release file, can be parsed.
pub open spec fn is_parseable(text: Seq<u8>) -> bool {
    text_of_bytes(text) matches Some(t) ==> header_complete(t)
}

/// The message of a release file that is trusted: what was signed, or the whole file
/// where it is not signed.
pub open spec fn trusted_message(contents: Seq<u8>) -> Seq<u8> {
    match clearsigned(contents) {
        Some(parts) => parts.text,
        None => contents,
    }
}

/// Whether the release file `contents` can be checked and parsed. A file that is trusted
/// is parsed alone, and requires no keyring.
pub open spec fn can_be_validated(
    data: ReleaseDataView,
    keyring: Option<Arc<AptKeyring>>,
    contents: Seq<u8>,
) -> bool {
    if data.trusted {
        is_parseable(trusted_message(contents))
    } else {
        &&& keyring matches Some(keys)
        &&& is_verifiable(contents, keys@)
        &&& is_validly_signed(contents, keys@) ==> is_parseable(clearsigned(contents)->0.text)
    }
}

/// Whether `r` is what checking and parsing the release file `contents` gives.
pub open spec fn is_validated(
    data: ReleaseDataView,
    keyring: Option<Arc<AptKeyring>>,
    contents: Seq<u8>,
    r: Result<ReleaseInfo, DistUpdateError>,
) -> bool {
    if data.trusted {
        is_parsed(data, trusted_message(contents), r)
    } else if is_validly_signed(contents, keyring->0@) {
        is_parsed(data, clearsigned(contents)->0.text, r)
    } else {
        &&& r matches Err(DistUpdateError::GpgValidation { why })
        &&& refuses_signature(contents, keyring->0@, why)
    }
}

/// What is to be known of a release file once it was parsed.
pub open spec fn info_of(
    data: ReleaseDataView,
    release: Seq<EntryComponentsView>,
) -> ReleaseInfoView {
    ReleaseInfoView { base_url: data.base_url, release, components: data.components }
}

/// Whether `r` is what parsing the message `text` of a release file gives.
pub open spec fn is_parsed(
    data: ReleaseDataView,
    text: Seq<u8>,
    r: Result<ReleaseInfo, DistUpdateError>,
) -> bool {
    match text_of_bytes(text) {
        None => r is Err && r->Err_0 is InvalidUtf8,
        Some(t) => match release_sums(t) {
            None => {
                &&& r matches Err(DistUpdateError::InvalidReleaseData { why })
                &&& refuses_release(t, why)
            },
            Some(sums) => r matches Ok(info) && info@ == info_of(data, sums),
        },
    }
}

/// Takes the message out of a release file, without a look at its signature.
fn unsigned(contents: &[u8]) -> (r: Vec<u8>)
    ensures
        r@ == trusted_message(contents@),
{
    match split_clearsigned(contents) {
        Some(parts) => parts.text,
        None => slice_to_vec(contents),
    }
}

/// Tests whether the message of a release file can be parsed.
fn can_parse(text: Vec<u8>) -> (r: bool)
    ensures
        r == is_parseable(text@),
{
    match string_from_utf8(text) {
        Some(text) => is_header_complete(text.as_str()),
        None => true,
    }
}

/// Parses the message of a release file.
pub fn parse_message(data: ReleaseData, text: Vec<u8>) -> (r: Result<ReleaseInfo, DistUpdateError>)
    requires
        is_parseable(text@),
    ensures
        is_parsed(data@, text@, r),
{
    match string_from_utf8(text) {
        None => Err(DistUpdateError::InvalidUtf8),
        Some(text) => describe(data, read_release(text.as_str())),
    }
}

/// Puts together what is known of a release file and what parsing it gave.
pub fn describe(data: ReleaseData, release: Result<DistRelease, std::io::Error>) -> (r: Result<
    ReleaseInfo,
    DistUpdateError,
>)
    ensures
        match release {
            Ok(release) => r matches Ok(info) && info@ == info_of(data@, release@),
            Err(why) => r == Err::<ReleaseInfo, DistUpdateError>(
                DistUpdateError::InvalidReleaseData { why },
            ),
        },
{
    match release {
        Ok(release) => Ok(
            ReleaseInfo { base_url: data.base_url, release, components: data.components },
        ),
        Err(why) => Err(DistUpdateError::InvalidReleaseData { why }),
    }
}

impl ReleaseFetched {
    pub fn new(
        future: Result<ReleaseData, DistUpdateError>,
        keyring: Option<Arc<AptKeyring>>,
    ) -> (r: Self)
        ensures
            r.future == future,
            r.keyring == keyring,
    {
        ReleaseFetched { future, keyring }
    }

    /// Checks the signature of a fetched release file, which holds `contents`, and
    /// parses its message. A file whose signer is not known to the keyring is refused,
    /// unless it is trusted.
    pub fn validate_releases(self, contents: &[u8]) -> (r: ValidatedRelease)
        requires
            self.future matches Ok(data) ==> can_be_validated(data@, self.keyring, contents@),
        ensures
            match self.future {
                Err(why) => r.future == Err::<ReleaseInfo, DistUpdateError>(why),
                Ok(data) => is_validated(data@, self.keyring, contents@, r.future),
            },
            r.future is Ok && !self.future->Ok_0.trusted ==> has_known_signer(
                contents@,
                self.keyring->0@,
            ),
    {
        let data = match self.future {
            Ok(data) => data,
            Err(why) => {
                return ValidatedRelease { future: Err(why) };
            },
        };
        if data.trusted {
            return ValidatedRelease { future: parse_message(data, unsigned(contents)) };
        }
        let keyring = self.keyring.unwrap();
        match keyring.verify(contents) {
            Ok(text) => ValidatedRelease { future: parse_message(data, text) },
            Err(why) => ValidatedRelease { future: Err(DistUpdateError::GpgValidation { why }) },
        }
    }

    /// Tests whether the release file can be checked and parsed.
    fn can_validate(&self, contents: &[u8]) -> (r: bool)
        ensures
            r == (self.future matches Ok(data) ==> can_be_validated(
                data@,
                self.keyring,
                contents@,
            )),
    {
        let data = match &self.future {
            Ok(data) => data,
            Err(_) => {
                return true;
            },
        };
        if data.trusted {
            return can_parse(unsigned(contents));
        }
        let keyring = match &self.keyring {
            Some(keyring) => keyring,
            None => {
                return false;
            },
        };
        if !keyring.can_verify(contents) {
            return false;
        }
        match keyring.verify(contents) {
            Ok(text) => can_parse(text),
            Err(_) => true,
        }
    }

    /// Checks and parses a fetched release file, which holds `contents`; `None` where
    /// there is no keyring for a file that is not trusted, or the signature or the message
    /// of the file cannot be dealt with.
    pub fn try_validate_releases(self, contents: &[u8]) -> (r: Option<ValidatedRelease>)
        ensures
            r is Some <==> (self.future matches Ok(data) ==> can_be_validated(
                data@,
                self.keyring,
                contents@,
            )),
            r matches Some(validated) ==> match self.future {
                Err(why) => validated.future == Err::<ReleaseInfo, DistUpdateError>(why),
                Ok(data) => is_validated(data@, self.keyring, contents@, validated.future),
            },
            r matches Some(validated) && validated.future is Ok && !self.future->Ok_0.trusted
                ==> has_known_signer(contents@, self.keyring->0@),
    {
        if self.can_validate(contents) {
            Some(self.validate_releases(contents))
        } else {
            None
        }
    }
}

/// The outcome of checking and parsing a release file.
pub struct ValidatedRelease {
    pub future: Result<ReleaseInfo, DistUpdateError>,
}

/// `url` with a slash at its end.
pub open spec fn with_slash(url: Seq<char>) -> Seq<char> {
    if "/"@.is_suffix_of(url) {
        url
    } else {
        url + "/"@
    }
}

/// Adds a slash to the end of `url` where there is none.
pub fn add_slash(url: String) -> (r: String)
    ensures
        r@ == with_slash(url@),
{
    if ends_with(url.as_str(), "/") {
        url
    } else {
        join2(url.as_str(), "/")
    }
}

/// Whether the files that a release file lists can be dealt with.
pub open spec fn has_fetchable_entries(info: ReleaseInfoView, archs: Seq<Seq<char>>) -> bool {
    strongest(info.release) matches Some((_, lists)) ==> all_fetchable(
        with_slash(info.base_url),
        lists,
        info.components,
        archs,
    )
}

/// Whether `r` is what fetching the files that a release file lists comes to: the
/// requests for those that are needed, by the strongest checksum method.
pub open spec fn is_entry_plan(
    info: ReleaseInfoView,
    archs: Seq<Seq<char>>,
    r: Result<Vec<EntryRequest>, DistUpdateError>,
) -> bool {
    match strongest(info.release) {
        None => {
            &&& r matches Err(DistUpdateError::NoEntriesFound { repo })
            &&& repo@ == with_slash(info.base_url)
        },
        Some((kind, lists)) => {
            &&& r matches Ok(requests)
            &&& request_views(requests@) == entry_requests(
                with_slash(info.base_url),
                kind,
                lists,
                info.components,
                archs,
            )
        },
    }
}

impl ValidatedRelease {
    /// Lists the files to fetch on a system with the architectures `archs`.
    pub fn fetch_entries(self, archs: &Vec<String>) -> (r: Result<
        Vec<EntryRequest>,
        DistUpdateError,
    >)
        requires
            self.future matches Ok(info) ==> has_fetchable_entries(info@, texts(archs@)),
        ensures
            match self.future {
                Err(why) => r == Err::<Vec<EntryRequest>, DistUpdateError>(why),
                Ok(info) => is_entry_plan(info@, texts(archs@), r),
            },
    {
        let info = match self.future {
            Ok(info) => info,
            Err(why) => {
                return Err(why);
            },
        };
        let url = add_slash(info.base_url);
        match find_strongest(&info.release.sums) {
            Some((kind, lists)) => Ok(
                plan_requests(url.as_str(), kind, lists, &info.components, archs).unwrap(),
            ),
            None => Err(DistUpdateError::NoEntriesFound { repo: url }),
        }
    }

    /// Tests whether the files that the release file lists can be dealt with.
    fn can_fetch(&self, archs: &Vec<String>) -> (r: bool)
        ensures
            r == (self.future matches Ok(info) ==> has_fetchable_entries(info@, texts(archs@))),
    {
        let info = match &self.future {
            Ok(info) => info,
            Err(_) => {
                return true;
            },
        };
        let url = add_slash(info.base_url.clone());
        match find_strongest(&info.release.sums) {
            Some((kind, lists)) => plan_requests(
                url.as_str(),
                kind,
                lists,
                &info.components,
                archs,
            ).is_some(),
            None => true,
        }
    }

    /// Lists the files to fetch on a system with the architectures `archs`; `None`
    /// where one of those that the release file lists cannot be dealt with.
    pub fn try_fetch_entries(self, archs: &Vec<String>) -> (r: Option<
        Result<Vec<EntryRequest>, DistUpdateError>,
    >)
        ensures
            r is Some <==> (self.future matches Ok(info) ==> has_fetchable_entries(
                info@,
                texts(archs@),
            )),
            r matches Some(plan) ==> match self.future {
                Err(why) => plan == Err::<Vec<EntryRequest>, DistUpdateError>(why),
                Ok(info) => is_entry_plan(info@, texts(archs@), plan),
            },
    {
        if self.can_fetch(archs) {
            Some(self.fetch_entries(archs))
        } else {
            None
        }
    }

    /// The outcome itself.
    pub fn into_future(self) -> (r: Result<ReleaseInfo, DistUpdateError>)
        ensures
            r == self.future,
    {
        self.future
    }
}

/// The position of the first failure, or the number of outcomes where there is none.
pub open spec fn first_failure<T, E>(outcomes: Seq<Result<T, E>>) -> nat
    decreases outcomes.len(),
{
    if outcomes.len() == 0 || outcomes[0] is Err {
        0
    } else {
        1 + first_failure(outcomes.drop_first())
    }
}

proof fn lemma_first_failure<T, E>(outcomes: Seq<Result<T, E>>, n: int)
    requires
        0 <= n <= outcomes.len(),
        forall|i: int| 0 <= i < n ==> #[trigger] outcomes[i] is Ok,
        n < outcomes.len() ==> outcomes[n] is Err,
    ensures
        first_failure(outcomes) == n,
    decreases n,
{
    if n > 0 {
        assert(outcomes[0] is Ok);
        let rest = outcomes.drop_first();
        assert forall|i: int| 0 <= i < n - 1 implies #[trigger] rest[i] is Ok by {
            assert(rest[i] == outcomes[i + 1]);
        }
        lemma_first_failure(rest, n - 1);
    }
}

/// Whether `r` is the first failure among `outcomes`, or a success where there is
/// none.
pub open spec fn is_first_failure<E>(outcomes: Seq<Result<(), E>>, r: Result<(), E>) -> bool {
    let n = first_failure(outcomes);
    if n < outcomes.len() {
        r == outcomes[n as int]
    } else {
        r is Ok
    }
}

/// The first failure among `outcomes`, or a success where there is none.
pub fn join_outcomes<E>(outcomes: Vec<Result<(), E>>) -> (r: Result<(), E>)
    ensures
        is_first_failure(outcomes@, r),
{
    let mut left = outcomes;
    let ghost mut done: int = 0;
    assert(left@ == outcomes@.skip(0));
    while left.len() > 0
        invariant
            0 <= done <= outcomes@.len(),
            left@ == outcomes@.skip(done),
            forall|i: int| 0 <= i < done ==> #[trigger] outcomes@[i] is Ok,
        decreases left@.len(),
    {
        let outcome = left.remove(0);
        assert(outcome == outcomes@[done]);
        assert(left@ == outcomes@.skip(done + 1));
        if outcome.is_err() {
            proof {
                lemma_first_failure(outcomes@, done);
            }
            return outcome;
        }
        proof {
            done = done + 1;
        }
    }
    proof {
        lemma_first_failure(outcomes@, done);
    }
    Ok(())
}

/// The outcome of fetching the files that a release file lists, where `outcomes` are
/// those of the single files in the order in which they came: the first failure, if
/// there is one.
pub fn entries_outcome(outcomes: Vec<Result<(), FetchError>>) -> (r: Result<(), DistUpdateError>)
    ensures
        ({
            let n = first_failure(outcomes@);
            if n < outcomes@.len() {
                r == Err::<(), DistUpdateError>(
                    DistUpdateError::Fetcher { why: outcomes@[n as int]->Err_0 },
                )
            } else {
                r is Ok
            }
        }),
{
    match join_outcomes(outcomes) {
        Ok(_) => {
            proof {
                lemma_first_failure_fails(outcomes@);
            }
            Ok(())
        },
        Err(why) => Err(DistUpdateError::Fetcher { why }),
    }
}

proof fn lemma_first_failure_fails<E>(outcomes: Seq<Result<(), E>>)
    ensures
        first_failure(outcomes) < outcomes.len() ==> outcomes[first_failure(
            outcomes,
        ) as int] is Err,
    decreases outcomes.len(),
{
    if outcomes.len() > 0 && outcomes[0] is Ok {
        lemma_first_failure_fails(outcomes.drop_first());
    }
}

/// The outcome of each release, under the directory of its release file.
pub type Outcomes = Vec<(String, Result<(), DistUpdateError>)>;

/// Whether one of the releases failed.
pub open spec fn has_failure(outcomes: Seq<(String, Result<(), DistUpdateError>)>) -> bool {
    exists|i: int| 0 <= i < outcomes.len() && (#[trigger] outcomes[i]).1 is Err
}

/// What an update sets out to do.
pub struct UpdatePlan {
    pub fetcher: ReleaseFetcher,
    pub requests: Vec<ReleaseRequest>,
    /// The architectures of the system.
    pub architectures: Vec<String>,
}

/// Updates the distribution files of the entries of a source list.
pub struct Updater<'a> {
    pub sources_list: &'a Vec<LocatedEntry>,
    pub keyring: Option<Arc<AptKeyring>>,
}

impl<'a> Updater<'a> {
    /// An updater without a keyring.
    pub fn new(sources_list: &'a Vec<LocatedEntry>) -> (r: Self)
        ensures
            r.sources_list == sources_list,
            r.keyring is None,
    {
        Updater { sources_list, keyring: None }
    }

    /// Sets the keyring that release files are checked with.
    pub fn keyring(self, keyring: Arc<AptKeyring>) -> (r: Self)
        ensures
            r.sources_list == self.sources_list,
            r.keyring == Some(keyring),
    {
        Updater { sources_list: self.sources_list, keyring: Some(keyring) }
    }

    /// The command by which apt itself makes an update.
    pub fn update(&self) -> (r: AptCommand)
        ensures
            r@ == (AptCommandView { program: "apt"@, args: seq!["update"@], env: seq![] }),
    {
        AptCommand::with_one("apt", "update")
    }

    /// What an update by apt itself comes to, where its command ended with `outcome`.
    pub fn updated(&self, outcome: Result<(), std::io::Error>) -> (r: Result<(), DistUpdateError>)
        ensures
            match outcome {
                Ok(_) => r is Ok,
                Err(why) => r == Err::<(), DistUpdateError>(DistUpdateError::AptUpdate { why }),
            },
    {
        match outcome {
            Ok(_) => Ok(()),
            Err(why) => Err(DistUpdateError::AptUpdate { why }),
        }
    }

    /// Experimental apt update replacement: says which release files are to be fetched
    /// on a system with the given architectures, if they could be had.
    pub fn tokio_update(&self, architectures: Result<Vec<String>, std::io::Error>) -> (r: Result<
        UpdatePlan,
        DistUpdateError,
    >)
        requires
            architectures is Ok ==> have_schemes(located_views(self.sources_list@)),
        ensures
            match architectures {
                Ok(archs) => {
                    &&& r matches Ok(plan)
                    &&& plan.fetcher.keyring == self.keyring
                    &&& plan.architectures == archs
                    &&& release_request_views(plan.requests@) == release_requests(
                        located_views(self.sources_list@),
                    )
                },
                Err(why) => r == Err::<UpdatePlan, DistUpdateError>(
                    DistUpdateError::Architectures { why },
                ),
            },
    {
        let architectures = match architectures {
            Ok(architectures) => architectures,
            Err(why) => {
                return Err(DistUpdateError::Architectures { why });
            },
        };
        let mut fetcher = ReleaseFetcher::new();
        if let Some(keyring) = &self.keyring {
            fetcher = fetcher.with_keyring(keyring.clone());
        }
        let requests = fetcher.fetch_updates(self.sources_list);
        Ok(UpdatePlan { fetcher, requests, architectures })
    }

    /// What the update comes to, where the releases ended with `outcomes`, or the work
    /// on them was cut short: the outcomes where no release failed, and an error
    /// otherwise.
    pub fn conclude(outcomes: Option<Outcomes>) -> (r: Result<Outcomes, DistUpdateError>)
        ensures
            match outcomes {
                Some(list) => if has_failure(list@) {
                    r == Err::<Outcomes, DistUpdateError>(DistUpdateError::DistFetch)
                } else {
                    r == Ok::<Outcomes, DistUpdateError>(list)
                },
                None => r == Err::<Outcomes, DistUpdateError>(DistUpdateError::FetchUpdates),
            },
    {
        let list = match outcomes {
            Some(list) => list,
            None => {
                return Err(DistUpdateError::FetchUpdates);
            },
        };
        let mut errored = false;
        for i in 0..list.len()
            invariant
                errored == has_failure(list@.take(i as int)),
        {
            let ghost next = list@.take(i + 1);
            proof {
                assert forall|k: int| 0 <= k < i implies #[trigger] next[k] == list@.take(
                    i as int,
                )[k] by {}
                if has_failure(list@.take(i as int)) {
                    let k = choose|k: int|
                        0 <= k < i && (#[trigger] list@.take(i as int)[k]).1 is Err;
                    assert(next[k].1 is Err);
                }
                assert(next[i as int] == list@[i as int]);
                if has_failure(next) && !(list@[i as int].1 is Err) {
                    let k = choose|k: int| 0 <= k < i + 1 && (#[trigger] next[k]).1 is Err;
                    assert(list@.take(i as int)[k].1 is Err);
                }
            }
            if list[i].1.is_err() {
                errored = true;
            }
        }
        assert(list@.take(list@.len() as int) == list@);
        if errored {
            Err(DistUpdateError::DistFetch)
        } else {
            Ok(list)
        }
    }
}

/// The release files are requested in the order of the entries, one for each that is in effect and
/// not about source packages, and none for any other. A release file stands in the directory of
/// its entry, and is kept under what follows the first seven bytes of its address, with an
/// underscore for each slash; the entry says whether it is trusted, and which components are
/// wanted of it.
pub proof fn release_files_are_requested_in_order(
    list: Seq<LocatedEntryView>,
    e: LocatedEntryView,
    scheme: Seq<char>,
    rest: Seq<char>,
)
    requires
        e.dist_path + "/InRelease"@ == scheme + rest,
        encode_utf8(scheme).len() == 7,
    ensures
        release_requests(seq![]) == Seq::<ReleaseRequestView>::empty(),
        !e.entry.enabled || e.entry.source ==> release_requests(list.push(e)) == release_requests(
            list,
        ),
        e.entry.enabled && !e.entry.source ==> {
            let name = rest.map_values(
                |c: char|
                    if c == '/' {
                        '_'
                    } else {
                        c
                    },
            );
            release_requests(list.push(e)) == release_requests(list).push(
                ReleaseRequestView {
                    url: e.dist_path + "/InRelease"@,
                    partial: "var/lib/apt/lists/partial/"@ + name,
                    data: ReleaseDataView {
                        trusted: e.entry.options.contains("trusted=yes"@),
                        base_url: e.dist_path,
                        path: "var/lib/apt/lists/"@ + name,
                        components: e.entry.components,
                    },
                },
            )
        },
{
    reveal_strlit("/");
    reveal_strlit("_");
    reveal_with_fuel(Seq::filter, 2);
    let none = Seq::<LocatedEntryView>::empty();
    assert(release_requests(none) =~= Seq::<ReleaseRequestView>::empty());
    let all = list.push(e);
    let test = is_binary_source();
    assert(all.drop_last() =~= list);
    assert(all.last() == e);
    crate::text::text_is_parted_by_bytes(scheme, rest);
    assert("/"@ =~= seq!['/']);
    assert("_"@ =~= seq!['_']);
    crate::text::lemma_replace_char(rest, '/', '_');
    if test(e) {
        assert(all.filter(test) == list.filter(test).push(e));
        assert(to_fetch(all) =~= to_fetch(list).push(release_of()(e)));
        assert(release_requests(all) =~= release_requests(list).push(
            request_of()(release_of()(e)),
        ));
    } else {
        assert(all.filter(test) == list.filter(test));
    }
}

/// The requests that are handed out are those for the entries of the list, one by one and field by
/// field.
pub proof fn requests_for_release_files_are_handed_out(
    fetcher: &ReleaseFetcher,
    list: &Vec<LocatedEntry>,
    r: Vec<ReleaseRequest>,
)
    requires
        call_ensures(ReleaseFetcher::fetch_updates, (fetcher, list), r),
    ensures
        ({
            let expected = release_requests(located_views(list@));
            &&& r@.len() == expected.len()
            &&& forall|i: int|
                0 <= i < r@.len() ==> {
                    let q = #[trigger] r@[i];
                    &&& q.url@ == expected[i].url
                    &&& q.partial@ == expected[i].partial
                    &&& q.data.trusted == expected[i].data.trusted
                    &&& q.data.base_url@ == expected[i].data.base_url
                    &&& q.data.path@ == expected[i].data.path
                    &&& texts(q.data.components@) == expected[i].data.components
                }
        }),
{
    let expected = release_requests(located_views(list@));
    assert forall|i: int| 0 <= i < r@.len() implies {
        let q = #[trigger] r@[i];
        &&& q.url@ == expected[i].url
        &&& q.partial@ == expected[i].partial
        &&& q.data.trusted == expected[i].data.trusted
        &&& q.data.base_url@ == expected[i].data.base_url
        &&& q.data.path@ == expected[i].data.path
        &&& texts(q.data.components@) == expected[i].data.components
    } by {
        assert(release_request_views(r@)[i] == r@[i]@);
    }
}

/// Sources whose addresses start with seven characters of one byte each, as those that are reached
/// by HTTP do, have schemes. Sources that are not in effect, or are about source packages, are not
/// asked for one; any other must have an address that can be parted after seven bytes.
pub proof fn sources_reached_by_http_have_schemes(list: Seq<LocatedEntryView>)
    ensures
        (forall|i: int|
            0 <= i < list.len() && (#[trigger] list[i]).entry.enabled && !list[i].entry.source
                ==> list[i].dist_path.len() >= 7 && forall|k: int|
                0 <= k < 7 ==> #[trigger] list[i].dist_path[k] as int <= 127) ==> have_schemes(
            list,
        ),
        have_schemes(list) ==> forall|i: int|
            0 <= i < list.len() && (#[trigger] list[i]).entry.enabled && !list[i].entry.source
                ==> splits_at(list[i].dist_path + "/InRelease"@, 7),
{
    if forall|i: int|
        0 <= i < list.len() && (#[trigger] list[i]).entry.enabled && !list[i].entry.source
            ==> list[i].dist_path.len() >= 7 && forall|k: int|
            0 <= k < 7 ==> #[trigger] list[i].dist_path[k] as int <= 127 {
        assert forall|i: int| 0 <= i < list.len() && is_binary_source()(#[trigger] list[i]) implies
            splits_at(list[i].dist_path + "/InRelease"@, 7) by {
            let url = list[i].dist_path + "/InRelease"@;
            assert forall|k: int| 0 <= k < 7 implies crate::text::is_one_byte(#[trigger] url[k]) by {
                assert(url[k] == list[i].dist_path[k]);
            }
            crate::text::lemma_after_one_byte_chars(url, 7);
        }
    }
    if have_schemes(list) {
        assert forall|i: int|
            0 <= i < list.len() && (#[trigger] list[i]).entry.enabled
                && !list[i].entry.source implies splits_at(
            list[i].dist_path + "/InRelease"@,
            7,
        ) by {
            assert(is_binary_source()(list[i]));
        }
    }
}

/// A release file that is not trusted can be checked where there is a keyring, its signature can
/// be verified with that, and the head of the message comes to an end if the signature is accepted
/// and the message is UTF-8. One that is trusted is only parsed, and requires no keyring.
pub proof fn release_files_can_be_checked(
    data: ReleaseDataView,
    keyring: Option<Arc<AptKeyring>>,
    contents: Seq<u8>,
)
    ensures
        !data.trusted ==> (can_be_validated(data, keyring, contents) <==> {
            &&& keyring matches Some(keys)
            &&& is_verifiable(contents, keys@)
            &&& crate::keyring::refusal(contents, keys@) is None ==> {
                let message = clearsigned(contents)->0.text;
                valid_utf8(message) ==> header_complete(decode_utf8(message))
            }
        }),
        data.trusted && clearsigned(contents) is None ==> (can_be_validated(
            data,
            keyring,
            contents,
        ) <==> (valid_utf8(contents) ==> header_complete(decode_utf8(contents)))),
        data.trusted && clearsigned(contents) is Some ==> (can_be_validated(
            data,
            keyring,
            contents,
        ) <==> {
            let message = clearsigned(contents)->0.text;
            valid_utf8(message) ==> header_complete(decode_utf8(message))
        }),
{
}

/// What a fetched release file comes to. One that was not fetched fails for that reason. Without
/// trust, one whose signature is refused fails for the reason of the refusal. A message that is not
/// UTF-8, or that is refused as a release file, is an error. Otherwise all that the message lists is
/// handed on, with the address of the file and its wanted components.
pub proof fn release_files_come_to_what_they_list(
    fetched: ReleaseFetched,
    contents: &[u8],
    r: ValidatedRelease,
    message: Seq<u8>,
)
    requires
        ({
            ||| call_ensures(ReleaseFetched::validate_releases, (fetched, contents), r)
            ||| call_ensures(ReleaseFetched::try_validate_releases, (fetched, contents), Some(r))
        }),
        fetched.future matches Ok(data) && !data.trusted ==> (fetched.keyring is Some && (
        clearsigned(contents@) matches Some(parts) ==> message == parts.text)),
        fetched.future matches Ok(data) && data.trusted ==> message == match clearsigned(
            contents@,
        ) {
            Some(parts) => parts.text,
            None => contents@,
        },
    ensures
        fetched.future matches Err(why) ==> (r.future matches Err(e) && e == why),
        fetched.future matches Ok(data) ==> ({
            let accepted = data.trusted || crate::keyring::refusal(
                contents@,
                fetched.keyring->0@,
            ) is None;
            &&& !accepted ==> (r.future matches Err(DistUpdateError::GpgValidation { why })
                && refuses_signature(contents@, fetched.keyring->0@, why))
            &&& accepted && (data.trusted || clearsigned(contents@) is Some) ==> ({
                &&& !valid_utf8(message) ==> (r.future matches Err(DistUpdateError::InvalidUtf8))
                &&& valid_utf8(message) ==> match release_sums(decode_utf8(message)) {
                    None => {
                        &&& r.future matches Err(DistUpdateError::InvalidReleaseData { why })
                        &&& refuses_release(decode_utf8(message), why)
                    },
                    Some(sums) => {
                        &&& r.future matches Ok(info)
                        &&& info.release@ == sums
                        &&& info.base_url@ == data.base_url@
                        &&& texts(info.components@) == texts(data.components@)
                    },
                }
            })
            &&& r.future is Ok && !data.trusted ==> has_known_signer(
                contents@,
                fetched.keyring->0@,
            )
        }),
{
}

/// A release file that is not trusted is validated where its signature is accepted, the signer is
/// known by odd keys alone, and the message is that of a release file; whatever the size of the
/// keys and of the file.
pub proof fn properly_signed_release_is_validated(
    fetched: ReleaseFetched,
    contents: &[u8],
    r: Option<ValidatedRelease>,
    data: ReleaseData,
    keyring: Arc<AptKeyring>,
    parts: crate::keyring::ClearsignedView,
    sums: Seq<EntryComponentsView>,
)
    requires
        call_ensures(ReleaseFetched::try_validate_releases, (fetched, contents), r),
        fetched.future == Ok::<ReleaseData, DistUpdateError>(data),
        !data.trusted,
        fetched.keyring == Some(keyring),
        clearsigned(contents@) == Some(parts),
        crate::packets::is_readable(parts.signature),
        crate::packets::packet_content(parts.signature) matches Some(
            crate::packets::PacketContentView::Signature(Some(id), _),
        ) ==> forall|n: Seq<u8>, e: Seq<u8>| #[trigger]
            keyring@.contains((crate::packets::PublicKeyView::Rsa(n, e), id)) ==> n.len() > 0
                && n[n.len() - 1] % 2 == 1 && e.len() > 0 && e[e.len() - 1] % 2 == 1,
        crate::keyring::refusal(contents@, keyring@) is None,
        valid_utf8(parts.text),
        header_complete(decode_utf8(parts.text)),
        release_sums(decode_utf8(parts.text)) == Some(sums),
    ensures
        r matches Some(validated) && (validated.future matches Ok(info) && info.release@ == sums
            && info.base_url@ == data.base_url@ && texts(info.components@) == texts(
            data.components@,
        )),
{
    crate::keyring::file_signed_by_odd_keys_can_be_verified(contents@, keyring@);
}

/// What is not validated at all: a fetched release file that cannot be checked or parsed, and
/// nothing else.
pub proof fn only_what_can_be_checked_is_validated(
    fetched: ReleaseFetched,
    contents: &[u8],
    r: Option<ValidatedRelease>,
)
    requires
        call_ensures(ReleaseFetched::try_validate_releases, (fetched, contents), r),
    ensures
        fetched.future is Err ==> r is Some,
        fetched.future matches Ok(data) ==> (r is Some <==> can_be_validated(
            data@,
            fetched.keyring,
            contents@,
        )),
        fetched.future matches Ok(data) ==> data@.trusted == data.trusted && data@.base_url
            == data.base_url@ && data@.path == data.path@ && data@.components == texts(
            data.components@,
        ),
{
}

/// The files that a release file lists are planned by its strongest method, below its address with
/// a slash at the end.
pub proof fn listed_files_are_planned(
    release: ValidatedRelease,
    archs: &Vec<String>,
    r: Result<Vec<EntryRequest>, DistUpdateError>,
    url: Seq<char>,
)
    requires
        ({
            ||| call_ensures(ValidatedRelease::fetch_entries, (release, archs), r)
            ||| call_ensures(ValidatedRelease::try_fetch_entries, (release, archs), Some(r))
        }),
        release.future matches Ok(info) ==> url == if info.base_url@.len() > 0
            && info.base_url@[info.base_url@.len() - 1] == '/' {
            info.base_url@
        } else {
            info.base_url@.push('/')
        },
    ensures
        release.future matches Err(why) ==> (r matches Err(e) && e == why),
        release.future matches Ok(info) ==> match strongest(info.release@) {
            None => r matches Err(DistUpdateError::NoEntriesFound { repo }) && repo@ == url,
            Some((kind, lists)) => r matches Ok(requests) && request_views(requests@)
                == entry_requests(url, kind, lists, texts(info.components@), texts(archs@)),
        },
{
    if let Ok(info) = release.future {
        slash_is_put_at_the_end(info.base_url@);
    }
}

/// An address ends with one slash more where it does not end with one, and is the same otherwise.
pub proof fn slash_is_put_at_the_end(url: Seq<char>)
    ensures
        with_slash(url) == if url.len() > 0 && url[url.len() - 1] == '/' {
            url
        } else {
            url.push('/')
        },
{
    reveal_strlit("/");
    let n = url.len() as int;
    assert("/"@ =~= seq!['/']);
    if n > 0 {
        assert(url.subrange(n - 1, n) =~= seq![url[n - 1]]);
        assert(seq!['/'][0] == '/');
        assert(seq![url[n - 1]][0] == url[n - 1]);
    }
    assert(url + "/"@ =~= url.push('/'));
}

/// Files are planned exactly where each can be dealt with.
pub proof fn only_what_can_be_dealt_with_is_planned(
    release: ValidatedRelease,
    archs: &Vec<String>,
    r: Option<Result<Vec<EntryRequest>, DistUpdateError>>,
    url: Seq<char>,
)
    requires
        call_ensures(ValidatedRelease::try_fetch_entries, (release, archs), r),
        release.future matches Ok(info) ==> url == if info.base_url@.len() > 0
            && info.base_url@[info.base_url@.len() - 1] == '/' {
            info.base_url@
        } else {
            info.base_url@.push('/')
        },
    ensures
        release.future is Err ==> r is Some,
        release.future matches Ok(info) ==> match strongest(info.release@) {
            None => r is Some,
            Some((_, lists)) => r is Some <==> all_fetchable(
                url,
                lists,
                texts(info.components@),
                texts(archs@),
            ),
        },
{
    if let Ok(info) = release.future {
        slash_is_put_at_the_end(info.base_url@);
    }
}

/// Outcomes come to the first failure among them, whatever follows it, and to a success where all
/// are successes.
pub proof fn first_failure_is_handed_out<E>(
    outcomes: Vec<Result<(), E>>,
    r: Result<(), E>,
    n: int,
)
    requires
        call_ensures(join_outcomes::<E>, (outcomes,), r),
        0 <= n <= outcomes@.len(),
        forall|i: int| 0 <= i < n ==> #[trigger] outcomes@[i] is Ok,
        n < outcomes@.len() ==> outcomes@[n] is Err,
    ensures
        n == outcomes@.len() ==> r is Ok,
        n < outcomes@.len() ==> r == outcomes@[n],
{
    lemma_first_failure(outcomes@, n);
}

/// The same of the files that a release file lists.
pub proof fn first_failed_file_is_handed_out(
    outcomes: Vec<Result<(), FetchError>>,
    r: Result<(), DistUpdateError>,
    n: int,
)
    requires
        call_ensures(entries_outcome, (outcomes,), r),
        0 <= n <= outcomes@.len(),
        forall|i: int| 0 <= i < n ==> #[trigger] outcomes@[i] is Ok,
        n < outcomes@.len() ==> outcomes@[n] is Err,
    ensures
        n == outcomes@.len() ==> r is Ok,
        n < outcomes@.len() ==> (r matches Err(DistUpdateError::Fetcher { why }) && outcomes@[n]
            == Err::<(), FetchError>(why)),
{
    lemma_first_failure(outcomes@, n);
}

/// An update succeeds, and hands out all outcomes, exactly where the work was not cut short and no
/// release failed.
pub proof fn update_succeeds_where_no_release_failed(
    outcomes: Option<Outcomes>,
    r: Result<Outcomes, DistUpdateError>,
)
    requires
        call_ensures(Updater::conclude, (outcomes,), r),
    ensures
        outcomes is None ==> (r matches Err(DistUpdateError::FetchUpdates)),
        outcomes matches Some(list) ==> ({
            &&& (forall|i: int| 0 <= i < list@.len() ==> (#[trigger] list@[i]).1 is Ok) ==> r
                == Ok::<Outcomes, DistUpdateError>(list)
            &&& (exists|i: int| 0 <= i < list@.len() && (#[trigger] list@[i]).1 is Err) ==> (
            r matches Err(DistUpdateError::DistFetch))
        }),
{
}

/// An update is planned with the keyring that was set, for the architectures of the system, and
/// for the release files of the list; it fails where the architectures are not known.
pub proof fn update_is_planned_for_the_system(
    updater: &Updater,
    architectures: Result<Vec<String>, std::io::Error>,
    r: Result<UpdatePlan, DistUpdateError>,
)
    requires
        call_ensures(Updater::tokio_update, (updater, architectures), r),
    ensures
        architectures matches Err(e) ==> (r matches Err(DistUpdateError::Architectures { why })
            && why == e),
        architectures matches Ok(archs) ==> ({
            &&& r matches Ok(plan)
            &&& plan.architectures == archs
            &&& plan.fetcher.keyring == updater.keyring
            &&& release_request_views(plan.requests@) == release_requests(
                located_views(updater.sources_list@),
            )
        }),
{
}

/// A release file that was fetched is checked with the keyring that was set; one that was not is
/// an error that says why.
pub proof fn fetched_release_keeps_the_keyring(
    fetcher: &ReleaseFetcher,
    request: ReleaseRequest,
    outcome: Result<(), FetchError>,
    r: ReleaseFetched,
)
    requires
        call_ensures(ReleaseFetcher::fetched, (fetcher, request, outcome), r),
    ensures
        r.keyring == fetcher.keyring,
        outcome is Ok ==> (r.future matches Ok(data) && data == request.data),
        outcome matches Err(e) ==> (r.future matches Err(DistUpdateError::Fetcher { why }) && why
            == e),
{
}

/// An update by apt itself is made by `apt update`, and fails where that does.
pub proof fn apt_itself_makes_an_update(
    updater: &Updater,
    command: AptCommand,
    outcome: Result<(), std::io::Error>,
    r: Result<(), DistUpdateError>,
)
    requires
        call_ensures(Updater::update, (updater,), command),
        call_ensures(Updater::updated, (updater, outcome), r),
    ensures
        command.program@ == "apt"@,
        command.args@.len() == 1,
        command.args@[0]@ == "update"@,
        command.env@.len() == 0,
        r is Ok <==> outcome is Ok,
        outcome matches Err(e) ==> (r matches Err(DistUpdateError::AptUpdate { why }) && why == e),
{
    let env = crate::command::variables(command.env@);
    assert(command@.args == texts(command.args@) && command@.env == env);
    assert(env.len() == command.env@.len());
    assert(command@.args[0] == command.args@[0]@);
}

/// An error in words says what failed, and then why.
pub proof fn update_errors_say_what_failed(error: DistUpdateError, text: Seq<char>)
    requires
        error.says(text),
    ensures
        match error {
            DistUpdateError::Tokio { what, why } => exists|words: String| #[trigger]
                to_string_from_display_ensures::<std::io::Error>(&why, words) && text
                    == "tokio error: failure "@ + what@ + ": "@ + words@,
            DistUpdateError::Request { why } => exists|words: String| #[trigger]
                to_string_from_display_ensures::<reqwest::Error>(&why, words) && text
                    == "http/s request failed: "@ + words@,
            DistUpdateError::AptUpdate { why } => exists|words: String| #[trigger]
                to_string_from_display_ensures::<std::io::Error>(&why, words) && text
                    == "failed to exec 'apt update': "@ + words@,
            DistUpdateError::Decoder { why } => exists|words: String| #[trigger]
                to_string_from_display_ensures::<std::io::Error>(&why, words) && text
                    == "decoder error: "@ + words@,
            DistUpdateError::GpgValidation { why } => exists|words: String| #[trigger]
                to_string_from_display_ensures::<failure::Error>(&why, words) && text
                    == "failed to validate GPG signature: "@ + words@,
            DistUpdateError::LocalRepo { why } => exists|words: String| #[trigger]
                to_string_from_display_ensures::<std::io::Error>(&why, words) && text
                    == "failed to read local apt repo: "@ + words@,
            DistUpdateError::InvalidUtf8 => text == "release file had invalid UTF-8"@,
            DistUpdateError::InvalidReleaseData { why } => exists|words: String| #[trigger]
                to_string_from_display_ensures::<std::io::Error>(&why, words) && text
                    == "invalid release data: "@ + words@,
            DistUpdateError::NoEntriesFound { repo } => text
                == "no entries were found for the repository at "@ + repo@,
            DistUpdateError::Architectures { why } => exists|words: String| #[trigger]
                to_string_from_display_ensures::<std::io::Error>(&why, words) && text
                    == "failed to fetch available architectures: "@ + words@,
            DistUpdateError::Decompressor { why } => exists|words: String| #[trigger]
                to_string_from_display_ensures::<std::io::Error>(&why, words) && text
                    == "failed to initialize decompressor: "@ + words@,
            DistUpdateError::Fetcher { why } => exists|words: Seq<char>| #[trigger]
                why.says(words) && text == "failed to fetch file: "@ + words,
            DistUpdateError::FetchUpdates => text == "failed to fetch updates"@,
            DistUpdateError::DistFetch => text == "failed to fetch distribution file(s)"@,
        },
{
}

/// Sources have schemes exactly where the address of the release file of each that is in effect and
/// not about source packages can be parted after seven bytes; the test says the same.
pub proof fn schemes_are_tested_for_binary_sources(list: &Vec<LocatedEntry>, r: bool)
    requires
        call_ensures(check_schemes, (list,), r),
    ensures
        r == have_schemes(located_views(list@)),
        have_schemes(located_views(list@)) <==> forall|i: int|
            0 <= i < list@.len() && (#[trigger] list@[i]).entry.enabled && !list@[i].entry.source
                ==> splits_at(list@[i].dist_path@ + "/InRelease"@, 7),
{
    let all = located_views(list@);
    if have_schemes(all) {
        assert forall|i: int|
            0 <= i < list@.len() && (#[trigger] list@[i]).entry.enabled
                && !list@[i].entry.source implies splits_at(
            list@[i].dist_path@ + "/InRelease"@,
            7,
        ) by {
            assert(is_binary_source()(all[i]));
        }
    }
    if forall|i: int|
        0 <= i < list@.len() && (#[trigger] list@[i]).entry.enabled && !list@[i].entry.source
            ==> splits_at(list@[i].dist_path@ + "/InRelease"@, 7) {
        assert forall|i: int| 0 <= i < all.len() && is_binary_source()(#[trigger] all[i]) implies
            splits_at(all[i].dist_path + "/InRelease"@, 7) by {
            assert(list@[i].entry.enabled && !list@[i].entry.source);
        }
    }
}

/// The message of a release file is parsed to what it lists, together with what is known of the
/// file, or is an error that says why.
pub proof fn messages_are_parsed_to_what_they_list(
    data: ReleaseData,
    text: Vec<u8>,
    parsed: Result<ReleaseInfo, DistUpdateError>,
    release: Result<DistRelease, std::io::Error>,
    described: Result<ReleaseInfo, DistUpdateError>,
)
    requires
        call_ensures(parse_message, (data, text), parsed),
        call_ensures(describe, (data, release), described),
    ensures
        !valid_utf8(text@) ==> (parsed matches Err(DistUpdateError::InvalidUtf8)),
        valid_utf8(text@) ==> match release_sums(decode_utf8(text@)) {
            None => {
                &&& parsed matches Err(DistUpdateError::InvalidReleaseData { why })
                &&& refuses_release(decode_utf8(text@), why)
            },
            Some(sums) => {
                &&& parsed matches Ok(info)
                &&& info.release@ == sums
                &&& info.base_url@ == data.base_url@
                &&& texts(info.components@) == texts(data.components@)
            },
        },
        match release {
            Ok(all) => {
                &&& described matches Ok(info)
                &&& info.release@ == all@
                &&& info.base_url@ == data.base_url@
                &&& texts(info.components@) == texts(data.components@)
            },
            Err(e) => {
                &&& described matches Err(DistUpdateError::InvalidReleaseData { why })
                &&& why == e
            },
        },
{
}

/// The keyring that is set for an update is the one that its release files are checked with; where
/// none is set, there is none.
pub proof fn keyring_of_the_update_is_used<'a>(
    list: &'a Vec<LocatedEntry>,
    bare: Updater<'a>,
    keyring: Arc<AptKeyring>,
    updater: Updater<'a>,
    architectures: Vec<String>,
    plan: UpdatePlan,
    bare_plan: UpdatePlan,
    request: ReleaseRequest,
    fetched: ReleaseFetched,
)
    requires
        call_ensures(Updater::<'a>::new, (list,), bare),
        call_ensures(Updater::<'a>::keyring, (bare, keyring), updater),
        call_ensures(Updater::tokio_update, (&updater, Ok(architectures)), Ok(plan)),
        call_ensures(Updater::tokio_update, (&bare, Ok(architectures)), Ok(bare_plan)),
        call_ensures(ReleaseFetcher::fetched, (&plan.fetcher, request, Ok(())), fetched),
    ensures
        plan.fetcher.keyring == Some(keyring),
        fetched.keyring == Some(keyring),
        bare_plan.fetcher.keyring is None,
        release_request_views(plan.requests@) == release_requests(located_views(list@)),
        release_request_views(bare_plan.requests@) == release_requests(located_views(list@)),
{
}

/// What an error is put in is what it says, and what comes of a validated release is handed out as
/// it is.
pub proof fn update_errors_are_put_in_words(
    error: &DistUpdateError,
    text: String,
    release: ValidatedRelease,
    r: Result<ReleaseInfo, DistUpdateError>,
)
    requires
        call_ensures(DistUpdateError::message, (error,), text),
        call_ensures(ValidatedRelease::into_future, (release,), r),
    ensures
        error.says(text@),
        r == release.future,
{
}

/// What is taken without more ado: a list of sources that have schemes, a release file that can be
/// checked and parsed, and a release whose files can be dealt with.
pub proof fn update_takes_what_it_can_deal_with(
    fetcher: &ReleaseFetcher,
    updater: &Updater,
    list: &Vec<LocatedEntry>,
    architectures: Result<Vec<String>, std::io::Error>,
    fetched: ReleaseFetched,
    contents: &[u8],
    release: ValidatedRelease,
    archs: &Vec<String>,
)
    ensures
        have_schemes(located_views(list@)) ==> call_requires(
            ReleaseFetcher::fetch_updates,
            (fetcher, list),
        ),
        architectures is Err || have_schemes(located_views(updater.sources_list@))
            ==> call_requires(Updater::tokio_update, (updater, architectures)),
        (fetched.future matches Ok(data) ==> can_be_validated(data@, fetched.keyring, contents@))
            ==> call_requires(ReleaseFetched::validate_releases, (fetched, contents)),
        call_requires(ReleaseFetched::try_validate_releases, (fetched, contents)),
        (release.future matches Ok(info) ==> (strongest(info.release@) matches Some((_, lists))
            ==> all_fetchable(
            with_slash(info.base_url@),
            lists,
            texts(info.components@),
            texts(archs@),
        ))) ==> call_requires(ValidatedRelease::fetch_entries, (release, archs)),
        call_requires(ValidatedRelease::try_fetch_entries, (release, archs)),
{
}

} // verus!
