//! The upgrade of the apt sources from one suite to another.
use crate::dist::sources::{entry_views, SourceEntry, SourceEntryView};
use crate::dist::update::{add_slash, with_slash, DistUpdateError, Outcomes};
use crate::dist::REQUIRED_DIST_FILES;
use crate::keyring::AptKeyring;
use crate::text::{
    described, describes, interleave, join2, join3, replace, replace_all, same, starts_with, texts,
};
use std::sync::Arc;
use vstd::prelude::*;
use vstd::string::*;

verus! {

/// Why an upgrade failed.
#[allow(inconsistent_fields)]
pub enum DistUpgradeError {
    /// The runtime failed.
    Tokio { what: &'static str, why: std::io::Error },
    /// Some apt sources could not be reached: the URLs that could be, and those that could
    /// not be, with the reason.
    SourcesUnavailable { success: Vec<String>, failure: Vec<(String, reqwest::Error)> },
    /// A request failed.
    Request { why: reqwest::Error },
    /// The apt sources could not be overwritten.
    AptFileOverwrite { why: std::io::Error },
    /// The new dist files could not be fetched.
    AptFileUpdate { why: DistUpdateError },
    /// The new dist files could not be fetched, nor could the apt sources be restored.
    AptFileUpdateRestore { why: DistUpdateError, file_why: Box<DistUpgradeError> },
}

/// Whether `text` is `prefix` followed by the error `why` in words.
pub open spec fn describes_update(
    why: DistUpdateError,
    prefix: Seq<char>,
    text: Seq<char>,
) -> bool {
    exists|words: Seq<char>| #[trigger] why.says(words) && text == prefix + words
}

/// What is said of an update and of a restoration that failed, in the words `update` and
/// `restore`.
pub open spec fn both_failed(update: Seq<char>, restore: Seq<char>) -> Seq<char> {
    "failed to fetch apt sources[0] and restore apt files[1]: \n\t[0] "@ + update + "\n\t[1] "@
        + restore
}

impl DistUpgradeError {
    /// Whether `text` is the error in words. A failure of another library is described by
    /// the words of its own error.
    pub open spec fn says(self, text: Seq<char>) -> bool
        decreases self,
    {
        match self {
            DistUpgradeError::Tokio { what, why } => describes(
                why,
                "tokio error: failure "@ + what@ + ": "@,
                text,
            ),
            DistUpgradeError::SourcesUnavailable { .. } => text
                == "some apt sources could not be reached"@,
            DistUpgradeError::Request { why } => describes(why, "http/s request failed: "@, text),
            DistUpgradeError::AptFileOverwrite { why } => describes(
                why,
                "failed to overwrite apt source files: "@,
                text,
            ),
            DistUpgradeError::AptFileUpdate { why } => describes_update(
                why,
                "failed to fetch apt sources: "@,
                text,
            ),
            DistUpgradeError::AptFileUpdateRestore { why, file_why } => exists|
                update: Seq<char>,
                restore: Seq<char>,
            |
                {
                    &&& why.says(update)
                    &&& file_why.says(restore)
                    &&& text == #[trigger] both_failed(update, restore)
                },
        }
    }

    /// Puts the error in words.
    pub fn message(&self) -> (r: String)
        ensures
            self.says(r@),
        decreases self,
    {
        match self {
            DistUpgradeError::Tokio { what, why } => {
                let prefix = join3("tokio error: failure ", what, ": ");
                described(prefix.as_str(), why)
            },
            DistUpgradeError::SourcesUnavailable { .. } => "some apt sources could not be reached".to_owned(),
            DistUpgradeError::Request { why } => described("http/s request failed: ", why),
            DistUpgradeError::AptFileOverwrite { why } => described(
                "failed to overwrite apt source files: ",
                why,
            ),
            DistUpgradeError::AptFileUpdate { why } => {
                let words = why.message();
                let r = join2("failed to fetch apt sources: ", words.as_str());
                assert(describes_update(*why, "failed to fetch apt sources: "@, r@));
                r
            },
            DistUpgradeError::AptFileUpdateRestore { why, file_why } => {
                let update = why.message();
                let restore = file_why.message();
                let mut r = join3(
                    "failed to fetch apt sources[0] and restore apt files[1]: \n\t[0] ",
                    update.as_str(),
                    "\n\t[1] ",
                );
                r.append(restore.as_str());
                assert(r@ == both_failed(update@, restore@));
                r
            },
        }
    }
}

/// The URLs of the files that must exist in the directory `dist_path`.
pub open spec fn required_urls(dist_path: Seq<char>) -> Seq<Seq<char>> {
    REQUIRED_DIST_FILES@.map_values(|file: &'static str| with_slash(dist_path) + file@)
}

/// Lists the URLs to ask for to see whether the release in the directory `dist_path`
/// is there.
pub fn head_release_files(dist_path: String) -> (r: Vec<String>)
    ensures
        texts(r@) == required_urls(dist_path@),
{
    let url = add_slash(dist_path);
    let mut r: Vec<String> = Vec::new();
    for i in 0..REQUIRED_DIST_FILES.len()
        invariant
            url@ == with_slash(dist_path@),
            texts(r@) == required_urls(dist_path@).take(i as int),
    {
        let ghost before = r@;
        r.push(join2(url.as_str(), REQUIRED_DIST_FILES[i]));
        assert(texts(r@) =~= texts(before).push(required_urls(dist_path@)[i as int]));
    }
    assert(required_urls(dist_path@).take(REQUIRED_DIST_FILES@.len() as int) == required_urls(
        dist_path@,
    ));
    r
}

/// The test that [`upgraded_entries`] filters by: entries of the suite `from`, or of
/// one whose name starts with it, that are reached by HTTP.
pub open spec fn is_upgradable(from: Seq<char>) -> spec_fn(SourceEntryView) -> bool {
    |e: SourceEntryView| "http"@.is_prefix_of(e.url) && from.is_prefix_of(e.suite)
}

/// What [`upgraded_entries`] makes of an entry.
pub open spec fn moved(from: Seq<char>, to: Seq<char>) -> spec_fn(
    SourceEntryView,
) -> SourceEntryView {
    |e: SourceEntryView| SourceEntryView { suite: replace_all(e.suite, from, to), ..e }
}

/// The entries that an upgrade from the suite `from` to the suite `to` leads to.
pub open spec fn upgraded_entries(
    list: Seq<SourceEntryView>,
    from: Seq<char>,
    to: Seq<char>,
) -> Seq<SourceEntryView> {
    list.filter(is_upgradable(from)).map_values(moved(from, to))
}

/// Lists the entries that an upgrade from one suite to another leads to.
pub fn head_all_release_files(list: &Vec<SourceEntry>, from_suite: &str, to_suite: &str) -> (r: Vec<
    SourceEntry,
>)
    ensures
        entry_views(r@) == upgraded_entries(entry_views(list@), from_suite@, to_suite@),
{
    let ghost all = entry_views(list@);
    let ghost test = is_upgradable(from_suite@);
    let ghost make = moved(from_suite@, to_suite@);
    let mut r: Vec<SourceEntry> = Vec::new();
    assert(upgraded_entries(all.take(0), from_suite@, to_suite@) =~= entry_views(r@));
    for i in 0..list.len()
        invariant
            all == entry_views(list@),
            test == is_upgradable(from_suite@),
            make == moved(from_suite@, to_suite@),
            entry_views(r@) == all.take(i as int).filter(test).map_values(make),
    {
        let entry = &list[i];
        let ghost before = r@;
        let ghost kept = all.take(i as int).filter(test);
        let ghost next = all.take(i + 1);
        proof {
            assert(next.drop_last() =~= all.take(i as int));
            assert(next.last() == entry@);
            reveal_with_fuel(Seq::filter, 2);
        }
        if starts_with(entry.url.as_str(), "http") && starts_with(
            entry.suite.as_str(),
            from_suite,
        ) {
            let suite = replace(entry.suite.as_str(), from_suite, to_suite);
            let upgraded = entry.with_suite(suite);
            r.push(upgraded);
            proof {
                assert(test(entry@));
                assert(next.filter(test) == kept.push(entry@));
                assert(kept.push(entry@).map_values(make) =~= kept.map_values(make).push(
                    make(entry@),
                ));
                assert(entry_views(r@) =~= entry_views(before).push(upgraded@));
            }
        } else {
            assert(!test(entry@));
        }
    }
    assert(all.take(all.len() as int) == all);
    r
}

/// Every suite that an upgrade asks for starts with the name of the suite that it
/// upgrades to, and differs from its entry in the source list in nothing else.
pub proof fn upgraded_suites_start_with_target(
    list: Seq<SourceEntryView>,
    from: Seq<char>,
    to: Seq<char>,
    i: int,
)
    requires
        0 <= i < upgraded_entries(list, from, to).len(),
    ensures
        ({
            let upgraded = upgraded_entries(list, from, to)[i];
            &&& to.is_prefix_of(upgraded.suite)
            &&& exists|k: int|
                0 <= k < list.len() && is_upgradable(from)(#[trigger] list[k]) && upgraded == (
                SourceEntryView { suite: upgraded.suite, ..list[k] })
        }),
{
    let kept = list.filter(is_upgradable(from));
    let entry = kept[i];
    list.lemma_filter_contains_rev(is_upgradable(from), entry);
    assert(kept.contains(entry));
    list.lemma_filter_pred(is_upgradable(from), i);
    let k = list.index_of(entry);
    assert(list[k] == entry);
    if from.len() == 0 {
        assert(to.is_prefix_of(interleave(entry.suite, to)));
    }
}

/// URLs that could be reached, and URLs that could not be, with the reason.
#[verifier::ext_equal]
pub struct PartitionView<E> {
    pub success: Seq<Seq<char>>,
    pub failure: Seq<(Seq<char>, E)>,
}

/// Whether `url` is among the failures.
pub open spec fn has_failed<E>(failure: Seq<(Seq<char>, E)>, url: Seq<char>) -> bool {
    exists|i: int| 0 <= i < failure.len() && (#[trigger] failure[i]).0 == url
}

/// `list` without `url`, whose place the last of the list takes.
pub open spec fn without_url(list: Seq<Seq<char>>, url: Seq<char>) -> Seq<Seq<char>> {
    if list.contains(url) {
        list.update(list.index_of_first(url)->0, list.last()).drop_last()
    } else {
        list
    }
}

/// What the result of asking for `url` adds to what is known: a failure is kept, and
/// takes the place of a success.
pub open spec fn noted<E>(
    known: PartitionView<E>,
    url: Seq<char>,
    result: Result<(), E>,
) -> PartitionView<E> {
    if has_failed(known.failure, url) {
        known
    } else {
        match result {
            Ok(_) => if known.success.contains(url) {
                known
            } else {
                PartitionView { success: known.success.push(url), failure: known.failure }
            },
            Err(why) => PartitionView {
                success: without_url(known.success, url),
                failure: known.failure.push((url, why)),
            },
        }
    }
}

/// The URLs that could be reached and those that could not be, where asking for them
/// in turn gave `results`.
pub open spec fn partition<E>(results: Seq<(Seq<char>, Result<(), E>)>) -> PartitionView<E>
    decreases results.len(),
{
    if results.len() == 0 {
        PartitionView { success: seq![], failure: seq![] }
    } else {
        noted(partition(results.drop_last()), results.last().0, results.last().1)
    }
}

/// Whether asking for `url` failed at least once.
pub open spec fn failed_once<E>(
    results: Seq<(Seq<char>, Result<(), E>)>,
    url: Seq<char>,
) -> bool {
    exists|i: int|
        0 <= i < results.len() && (#[trigger] results[i]).0 == url && results[i].1 is Err
}

/// Whether `url` was asked for at all.
pub open spec fn was_asked<E>(results: Seq<(Seq<char>, Result<(), E>)>, url: Seq<char>) -> bool {
    exists|i: int| 0 <= i < results.len() && (#[trigger] results[i]).0 == url
}

/// A URL counts as failed if asking for it failed at least once, and as reached if it
/// was asked for and never failed; none counts as both, and none is listed twice.
pub proof fn partition_is_by_failure<E>(results: Seq<(Seq<char>, Result<(), E>)>, url: Seq<char>)
    ensures
        ({
            let p = partition(results);
            &&& has_failed(p.failure, url) <==> failed_once(results, url)
            &&& p.success.contains(url) <==> was_asked(results, url) && !failed_once(results, url)
            &&& p.success.no_duplicates()
            &&& forall|i: int, j: int|
                0 <= i < j < p.failure.len() ==> (#[trigger] p.failure[i]).0 != (
                #[trigger] p.failure[j]).0
        }),
    decreases results.len(),
{
    let p = partition(results);
    if results.len() > 0 {
        let rest = results.drop_last();
        let known = partition(rest);
        let last = results.last().0;
        partition_is_by_failure(rest, url);
        partition_is_by_failure(rest, last);
        assert forall|u: Seq<char>| #[trigger] failed_once(results, u) <==> failed_once(rest, u) || (
        u == last && results.last().1 is Err) by {
            lemma_failed_once_last(results, u);
        }
        assert forall|u: Seq<char>| #[trigger] was_asked(results, u) <==> was_asked(rest, u) || u
            == last by {
            lemma_was_asked_last(results, u);
        }
        if !has_failed(known.failure, last) {
            match results.last().1 {
                Ok(_) => {
                    if !known.success.contains(last) {
                        assert(p.success == known.success.push(last));
                        assert(p.success.contains(url) <==> known.success.contains(url) || url
                            == last) by {
                            lemma_push_contains(known.success, last, url);
                        }
                    }
                },
                Err(why) => {
                    lemma_without_url(known.success, last, url);
                    assert(p.failure == known.failure.push((last, why)));
                    lemma_push_failed(known.failure, last, why, url);
                    assert forall|i: int, j: int| 0 <= i < j < p.failure.len() implies (
                    #[trigger] p.failure[i]).0 != (#[trigger] p.failure[j]).0 by {
                        assert(p.failure[i] == known.failure[i]);
                        if j < known.failure.len() {
                            assert(p.failure[j] == known.failure[j]);
                        } else if p.failure[i].0 == last {
                            assert(has_failed(known.failure, last));
                        }
                    }
                },
            }
        }
    }
}

proof fn lemma_failed_once_last<E>(results: Seq<(Seq<char>, Result<(), E>)>, url: Seq<char>)
    requires
        results.len() > 0,
    ensures
        failed_once(results, url) <==> failed_once(results.drop_last(), url) || (url
            == results.last().0 && results.last().1 is Err),
{
    let rest = results.drop_last();
    if failed_once(rest, url) {
        let i = choose|i: int|
            0 <= i < rest.len() && (#[trigger] rest[i]).0 == url && rest[i].1 is Err;
        assert(results[i] == rest[i]);
    }
    if failed_once(results, url) {
        let i = choose|i: int|
            0 <= i < results.len() && (#[trigger] results[i]).0 == url && results[i].1 is Err;
        if i < rest.len() {
            assert(rest[i] == results[i]);
        }
    }
    if url == results.last().0 && results.last().1 is Err {
        assert(results[results.len() - 1].0 == url);
    }
}

proof fn lemma_was_asked_last<E>(results: Seq<(Seq<char>, Result<(), E>)>, url: Seq<char>)
    requires
        results.len() > 0,
    ensures
        was_asked(results, url) <==> was_asked(results.drop_last(), url) || url
            == results.last().0,
{
    let rest = results.drop_last();
    if was_asked(rest, url) {
        let i = choose|i: int| 0 <= i < rest.len() && (#[trigger] rest[i]).0 == url;
        assert(results[i] == rest[i]);
    }
    if was_asked(results, url) {
        let i = choose|i: int| 0 <= i < results.len() && (#[trigger] results[i]).0 == url;
        if i < rest.len() {
            assert(rest[i] == results[i]);
        }
    }
    if url == results.last().0 {
        assert(results[results.len() - 1].0 == url);
    }
}

proof fn lemma_push_contains(list: Seq<Seq<char>>, added: Seq<char>, url: Seq<char>)
    ensures
        list.push(added).contains(url) <==> list.contains(url) || url == added,
{
    let longer = list.push(added);
    assert(longer[list.len() as int] == added);
    if list.contains(url) {
        let i = choose|i: int| 0 <= i < list.len() && list[i] == url;
        assert(longer[i] == url);
    }
}

proof fn lemma_push_failed<E>(
    failure: Seq<(Seq<char>, E)>,
    added: Seq<char>,
    why: E,
    url: Seq<char>,
)
    ensures
        has_failed(failure.push((added, why)), url) <==> has_failed(failure, url) || url == added,
{
    let longer = failure.push((added, why));
    assert(longer[failure.len() as int].0 == added);
    if has_failed(failure, url) {
        let i = choose|i: int| 0 <= i < failure.len() && (#[trigger] failure[i]).0 == url;
        assert(longer[i].0 == url);
    }
    if has_failed(longer, url) {
        let i = choose|i: int| 0 <= i < longer.len() && (#[trigger] longer[i]).0 == url;
        if i < failure.len() {
            assert(failure[i].0 == url);
        }
    }
}

/// Taking a URL out of a list without duplicates takes out that URL alone.
proof fn lemma_without_url(list: Seq<Seq<char>>, removed: Seq<char>, url: Seq<char>)
    requires
        list.no_duplicates(),
    ensures
        without_url(list, removed).no_duplicates(),
        without_url(list, removed).contains(url) <==> list.contains(url) && url != removed,
{
    if list.contains(removed) {
        list.index_of_first_ensures(removed);
        let at = list.index_of_first(removed)->0;
        let n = list.len() - 1;
        let shorter = without_url(list, removed);
        assert(shorter.len() == n);
        assert forall|i: int| 0 <= i < n implies #[trigger] shorter[i] == (if i == at {
            list[n]
        } else {
            list[i]
        }) by {}
        if list.contains(url) && url != removed {
            let i = list.index_of(url);
            if i == n {
                assert(shorter[at] == url);
            } else {
                assert(shorter[i] == url);
            }
        }
        if shorter.contains(url) {
            let i = shorter.index_of(url);
            if i == at {
                assert(list[n] == url);
            } else {
                assert(list[i] == url);
            }
        }
    }
}

/// The URLs that `failure` holds.
pub open spec fn failure_views<E>(failure: Seq<(String, E)>) -> Seq<(Seq<char>, E)> {
    failure.map_values(|f: (String, E)| (f.0@, f.1))
}

/// What asking for the files of each entry gave, under the URL of the entry.
pub open spec fn result_views<E>(results: Seq<(SourceEntry, Result<(), E>)>) -> Seq<
    (Seq<char>, Result<(), E>),
> {
    results.map_values(|r: (SourceEntry, Result<(), E>)| (r.0.url@, r.1))
}

/// Tests whether `url` is among the failures.
fn find_failed<E>(failure: &Vec<(String, E)>, url: &str) -> (r: bool)
    ensures
        r == has_failed(failure_views(failure@), url@),
{
    let ghost views = failure_views(failure@);
    for i in 0..failure.len()
        invariant
            views == failure_views(failure@),
            forall|k: int| 0 <= k < i ==> (#[trigger] views[k]).0 != url@,
    {
        if same(failure[i].0.as_str(), url) {
            assert(views[i as int].0 == url@);
            return true;
        }
    }
    false
}

/// Finds the first position of `url` in `list`.
fn find_url(list: &Vec<String>, url: &str) -> (r: Option<usize>)
    ensures
        match r {
            Some(i) => i < list@.len() && texts(list@).index_of_first(url@) == Some(i as int),
            None => !texts(list@).contains(url@),
        },
{
    let ghost all = texts(list@);
    proof {
        all.index_of_first_ensures(url@);
    }
    for i in 0..list.len()
        invariant
            all == texts(list@),
            forall|k: int| 0 <= k < i ==> #[trigger] all[k] != url@,
    {
        if same(list[i].as_str(), url) {
            proof {
                assert(all[i as int] == url@);
                all.index_of_first_ensures(url@);
            }
            return Some(i);
        }
    }
    None
}

/// Takes apart the URLs that could be reached and those that could not be.
pub fn partition_results<E>(results: Vec<(SourceEntry, Result<(), E>)>) -> (r: (
    Vec<String>,
    Vec<(String, E)>,
))
    ensures
        (PartitionView { success: texts(r.0@), failure: failure_views(r.1@) }) == partition(
            result_views(results@),
        ),
{
    let mut success: Vec<String> = Vec::new();
    let mut failure: Vec<(String, E)> = Vec::new();
    let mut left = results;
    let ghost all = result_views(results@);
    let ghost mut done: int = 0;
    assert(left@ == results@.skip(0));
    assert(texts(success@) =~= partition(all.take(0)).success);
    assert(failure_views(failure@) =~= partition(all.take(0)).failure);
    while left.len() > 0
        invariant
            all == result_views(results@),
            0 <= done <= all.len(),
            left@ == results@.skip(done),
            (PartitionView { success: texts(success@), failure: failure_views(failure@) })
                == partition(all.take(done)),
        decreases left@.len(),
    {
        let (entry, result) = left.remove(0);
        let url = entry.url;
        let ghost known = partition(all.take(done));
        proof {
            assert((entry, result) == results@[done]);
            assert(left@ == results@.skip(done + 1));
            assert(all.take(done + 1).drop_last() == all.take(done));
            assert(all.take(done + 1).last() == (url@, result));
        }
        if !find_failed(&failure, url.as_str()) {
            let position = find_url(&success, url.as_str());
            proof {
                texts(success@).index_of_first_ensures(url@);
            }
            let ghost reached = success@;
            match result {
                Ok(_) => {
                    if position.is_none() {
                        success.push(url);
                        assert(texts(success@) =~= texts(reached).push(url@));
                    }
                },
                Err(why) => {
                    if let Some(i) = position {
                        let _ = success.swap_remove(i);
                        assert(texts(success@) =~= without_url(texts(reached), url@));
                    }
                    let ghost before = failure@;
                    failure.push((url, why));
                    assert(failure_views(failure@) =~= failure_views(before).push((url@, why)));
                },
            }
        }
        proof {
            done = done + 1;
        }
    }
    assert(all.take(done) == all);
    (success, failure)
}

/// A change of suite in the apt sources.
pub struct SuiteChange {
    pub from: String,
    pub to: String,
}

#[verifier::ext_equal]
pub struct SuiteChangeView {
    pub from: Seq<char>,
    pub to: Seq<char>,
}

impl View for SuiteChange {
    type V = SuiteChangeView;

    open spec fn view(&self) -> SuiteChangeView {
        SuiteChangeView { from: self.from@, to: self.to@ }
    }
}

impl SuiteChangeView {
    /// The change back.
    pub open spec fn reversed(self) -> SuiteChangeView {
        SuiteChangeView { from: self.to, to: self.from }
    }
}

/// A change of suite that is reversed twice is the change itself.
pub proof fn reversing_twice_restores(change: SuiteChangeView)
    ensures
        change.reversed().reversed() == change,
{
}

/// Build an upgrade request, and check if the upgrade is possible.
pub struct UpgradeRequest {
    pub list: Vec<SourceEntry>,
    pub keyring: Option<Arc<AptKeyring>>,
}

/// What asking for the files of each entry that an upgrade leads to gave, under the
/// URL of the entry.
pub open spec fn answers<E>(
    list: Seq<SourceEntryView>,
    from: Seq<char>,
    to: Seq<char>,
    outcomes: Seq<Result<(), E>>,
) -> Seq<(Seq<char>, Result<(), E>)> {
    Seq::new(
        outcomes.len(),
        |i: int| (upgraded_entries(list, from, to)[i].url, outcomes[i]),
    )
}

/// Puts entries and outcomes together.
fn pair<E>(entries: Vec<SourceEntry>, outcomes: Vec<Result<(), E>>) -> (r: Vec<
    (SourceEntry, Result<(), E>),
>)
    requires
        entries@.len() == outcomes@.len(),
    ensures
        r@.len() == outcomes@.len(),
        forall|i: int| 0 <= i < r@.len() ==> #[trigger] r@[i] == (entries@[i], outcomes@[i]),
{
    let mut r: Vec<(SourceEntry, Result<(), E>)> = Vec::new();
    let mut entries_left = entries;
    let mut outcomes_left = outcomes;
    while outcomes_left.len() > 0
        invariant
            entries@.len() == outcomes@.len(),
            r@.len() <= outcomes@.len(),
            entries_left@ == entries@.skip(r@.len() as int),
            outcomes_left@ == outcomes@.skip(r@.len() as int),
            forall|i: int| 0 <= i < r@.len() ==> #[trigger] r@[i] == (entries@[i], outcomes@[i]),
        decreases outcomes_left@.len(),
    {
        let ghost n = r@.len() as int;
        let entry = entries_left.remove(0);
        let outcome = outcomes_left.remove(0);
        r.push((entry, outcome));
        assert(entries_left@ == entries@.skip(n + 1));
        assert(outcomes_left@ == outcomes@.skip(n + 1));
    }
    r
}

impl UpgradeRequest {
    /// Constructs a new upgrade request from the entries of an apt source list.
    pub fn new(list: Vec<SourceEntry>) -> (r: Self)
        ensures
            r.list == list,
            r.keyring is None,
    {
        UpgradeRequest { list, keyring: None }
    }

    /// Sets the keyring that release files are checked with.
    pub fn keyring(self, keyring: Arc<AptKeyring>) -> (r: Self)
        ensures
            r.list == self.list,
            r.keyring == Some(keyring),
    {
        UpgradeRequest { list: self.list, keyring: Some(keyring) }
    }

    /// Check if the upgrade request is possible, and enable upgrading if so: `outcomes`
    /// says for each entry that the upgrade leads to whether its files are there.
    pub fn send(
        self,
        from_suite: String,
        to_suite: String,
        outcomes: Vec<Result<(), reqwest::Error>>,
    ) -> (r: Result<Upgrader, DistUpgradeError>)
        requires
            outcomes@.len() == upgraded_entries(
                entry_views(self.list@),
                from_suite@,
                to_suite@,
            ).len(),
        ensures
            r is Ok <==> forall|i: int| 0 <= i < outcomes@.len() ==> #[trigger] outcomes@[i] is Ok,
            match r {
                Ok(upgrader) => {
                    &&& upgrader.change() == (SuiteChangeView { from: from_suite@, to: to_suite@ })
                    &&& upgrader.list() == self.list@
                    &&& upgrader.trusted_keys() == self.keyring
                },
                Err(why) => {
                    &&& why matches DistUpgradeError::SourcesUnavailable { success, failure }
                    &&& (PartitionView {
                        success: texts(success@),
                        failure: failure_views(failure@),
                    }) == partition(
                        answers(entry_views(self.list@), from_suite@, to_suite@, outcomes@),
                    )
                },
            },
    {
        let mut errored = false;
        for i in 0..outcomes.len()
            invariant
                !errored <==> forall|k: int| 0 <= k < i ==> #[trigger] outcomes@[k] is Ok,
        {
            if outcomes[i].is_err() {
                assert(outcomes@[i as int] is Err);
                errored = true;
            }
        }
        if errored {
            let entries = head_all_release_files(
                &self.list,
                from_suite.as_str(),
                to_suite.as_str(),
            );
            let results = pair(entries, outcomes);
            proof {
                let asked = answers(entry_views(self.list@), from_suite@, to_suite@, outcomes@);
                assert forall|i: int| 0 <= i < asked.len() implies #[trigger] asked[i]
                    == result_views(results@)[i] by {
                    assert(results@[i] == (entries@[i], outcomes@[i]));
                    assert(entry_views(entries@)[i] == entries@[i]@);
                }
                assert(result_views(results@) =~= asked);
            }
            let (success, failure) = partition_results(results);
            return Err(DistUpgradeError::SourcesUnavailable { success, failure });
        }
        Ok(Upgrader { keyring: self.keyring, list: self.list, from_suite, to_suite })
    }
}

/// An upgrader is created from an `UpgradeRequest::send`, which ensures that the dist
/// upgrade is possible.
pub struct Upgrader {
    keyring: Option<Arc<AptKeyring>>,
    list: Vec<SourceEntry>,
    from_suite: String,
    to_suite: String,
}

/// What comes next in an upgrade, and the upgrader that goes on with it. A success is the
/// end of the upgrader, which is no longer valid then.
pub enum DistUpgradeStep {
    /// Make this change in the apt sources.
    Overwrite(Upgrader, SuiteChange),
    /// Fetch the new dist files.
    Update(Upgrader),
    /// Make this change in the apt sources, which restores them, since fetching the new
    /// dist files failed.
    Restore(Upgrader, SuiteChange, DistUpdateError),
    /// The dist files were fetched.
    Done(Outcomes),
    /// The upgrade failed. The upgrader is returned alongside an error indicating the cause.
    Failed(Upgrader, DistUpgradeError),
}

impl Upgrader {
    /// The change of suite that the upgrade makes.
    pub closed spec fn change(self) -> SuiteChangeView {
        SuiteChangeView { from: self.from_suite@, to: self.to_suite@ }
    }

    /// The entries that the upgrade starts from.
    pub closed spec fn list(self) -> Seq<SourceEntry> {
        self.list@
    }

    /// The keyring that release files are checked with.
    pub closed spec fn trusted_keys(self) -> Option<Arc<AptKeyring>> {
        self.keyring
    }

    /// The keyring that release files are checked with.
    pub fn keyring(&self) -> (r: &Option<Arc<AptKeyring>>)
        ensures
            *r == self.trusted_keys(),
    {
        &self.keyring
    }

    /// Modify the apt sources in the system, and fetch the new dist files: the apt
    /// sources are to be modified first.
    ///
    /// On failure, the upgrader is returned alongside an error indicating the cause.
    /// On success, this upgrader is consumed, as it is no longer valid.
    pub fn dist_upgrade(self) -> (r: DistUpgradeStep)
        ensures
            r matches DistUpgradeStep::Overwrite(upgrader, change) && upgrader == self && change@
                == self.change(),
    {
        let change = self.overwrite_apt_sources();
        DistUpgradeStep::Overwrite(self, change)
    }

    /// What follows on the attempt to modify the apt sources.
    pub fn overwritten(self, outcome: Result<(), std::io::Error>) -> (r: DistUpgradeStep)
        ensures
            r == match outcome {
                Ok(_) => DistUpgradeStep::Update(self),
                Err(why) => DistUpgradeStep::Failed(
                    self,
                    DistUpgradeError::AptFileOverwrite { why },
                ),
            },
    {
        match outcome {
            Ok(_) => DistUpgradeStep::Update(self),
            Err(why) => DistUpgradeStep::Failed(self, DistUpgradeError::AptFileOverwrite { why }),
        }
    }

    /// What follows on the attempt to fetch new dist files from the new sources: where
    /// it failed, the apt sources are restored.
    pub fn update_dist_files(self, outcome: Result<Outcomes, DistUpdateError>) -> (r:
        DistUpgradeStep)
        ensures
            match outcome {
                Ok(outcomes) => r == DistUpgradeStep::Done(outcomes),
                Err(why) => {
                    &&& r matches DistUpgradeStep::Restore(upgrader, change, cause)
                    &&& upgrader == self
                    &&& change@ == self.change().reversed()
                    &&& cause == why
                },
            },
    {
        match outcome {
            Ok(outcomes) => DistUpgradeStep::Done(outcomes),
            Err(why) => {
                let change = self.revert_apt_sources();
                DistUpgradeStep::Restore(self, change, why)
            },
        }
    }

    /// What follows on restoring the apt sources, after fetching the new dist files failed
    /// for the reason `why`.
    pub fn restored(self, why: DistUpdateError, outcome: Result<(), std::io::Error>) -> (r:
        DistUpgradeStep)
        ensures
            r == match outcome {
                Ok(_) => DistUpgradeStep::Failed(self, DistUpgradeError::AptFileUpdate { why }),
                Err(e) => DistUpgradeStep::Failed(
                    self,
                    DistUpgradeError::AptFileUpdateRestore {
                        why,
                        file_why: Box::new(DistUpgradeError::AptFileOverwrite { why: e }),
                    },
                ),
            },
    {
        let error = match self.reverted(outcome) {
            Ok(_) => DistUpgradeError::AptFileUpdate { why },
            Err(file_why) => DistUpgradeError::AptFileUpdateRestore {
                why,
                file_why: Box::new(file_why),
            },
        };
        DistUpgradeStep::Failed(self, error)
    }

    /// Attempt to overwrite the apt sources with the new suite to upgrade to.
    pub fn overwrite_apt_sources(&self) -> (r: SuiteChange)
        ensures
            r@ == self.change(),
    {
        SuiteChange { from: self.from_suite.clone(), to: self.to_suite.clone() }
    }

    /// Performs the reverse of the overwrite method.
    pub fn revert_apt_sources(&self) -> (r: SuiteChange)
        ensures
            r@ == self.change().reversed(),
    {
        SuiteChange { from: self.to_suite.clone(), to: self.from_suite.clone() }
    }

    /// What the attempt to revert the apt sources comes to.
    pub fn reverted(&self, outcome: Result<(), std::io::Error>) -> (r: Result<
        (),
        DistUpgradeError,
    >)
        ensures
            match outcome {
                Ok(_) => r is Ok,
                Err(why) => r == Err::<(), DistUpgradeError>(
                    DistUpgradeError::AptFileOverwrite { why },
                ),
            },
    {
        match outcome {
            Ok(_) => Ok(()),
            Err(why) => Err(DistUpgradeError::AptFileOverwrite { why }),
        }
    }
}

/// Whether `part` stands somewhere in `s`.
pub open spec fn occurs(part: Seq<char>, s: Seq<char>) -> bool {
    exists|i: int| 0 <= i <= s.len() && part.is_prefix_of(#[trigger] s.skip(i))
}

proof fn lemma_replace_absent(s: Seq<char>, from: Seq<char>, to: Seq<char>)
    requires
        from.len() > 0,
        !occurs(from, s),
    ensures
        replace_all(s, from, to) == s,
    decreases s.len(),
{
    if s.len() > 0 {
        assert(s.skip(0) =~= s);
        let rest = s.drop_first();
        assert forall|i: int| 0 <= i <= rest.len() implies !from.is_prefix_of(
            #[trigger] rest.skip(i),
        ) by {
            assert(rest.skip(i) =~= s.skip(i + 1));
        }
        lemma_replace_absent(rest, from, to);
        assert(seq![s[0]] + rest =~= s);
    }
}

/// The name `s` with its occurrences of `part` left blank, taken from the left and without
/// overlap.
pub open spec fn outline(s: Seq<char>, part: Seq<char>) -> Seq<Option<char>>
    decreases s.len(),
{
    if part.len() == 0 || s.len() == 0 {
        s.map_values(|c: char| Some(c))
    } else if part.is_prefix_of(s) {
        seq![None] + outline(s.skip(part.len() as int), part)
    } else {
        seq![Some(s[0])] + outline(s.drop_first(), part)
    }
}

/// What an outline becomes where its blanks are filled with `part`.
pub open spec fn filled(blank: Seq<Option<char>>, part: Seq<char>) -> Seq<char>
    decreases blank.len(),
{
    if blank.len() == 0 {
        seq![]
    } else {
        (match blank[0] {
            Some(c) => seq![c],
            None => part,
        }) + filled(blank.drop_first(), part)
    }
}

proof fn lemma_filled(s: Seq<char>, part: Seq<char>, with: Seq<char>)
    requires
        part.len() > 0,
    ensures
        filled(outline(s, part), with) == replace_all(s, part, with),
        filled(outline(s, part), part) == s,
    decreases s.len(),
{
    if s.len() > 0 {
        let blank = outline(s, part);
        if part.is_prefix_of(s) {
            let rest = s.skip(part.len() as int);
            lemma_filled(rest, part, with);
            assert(blank.drop_first() =~= outline(rest, part));
            assert(part + rest =~= s);
        } else {
            let rest = s.drop_first();
            lemma_filled(rest, part, with);
            assert(blank.drop_first() =~= outline(rest, part));
            assert(seq![s[0]] + rest =~= s);
        }
    }
}

/// Reverting undoes overwriting on the name of a suite in which the suite that is upgraded to
/// then stands just where the one that is upgraded from stood.
pub proof fn reverting_undoes_overwriting(change: SuiteChangeView, suite: Seq<char>)
    requires
        change.from.len() > 0,
        change.to.len() > 0,
        outline(replace_all(suite, change.from, change.to), change.to) == outline(
            suite,
            change.from,
        ),
    ensures
        ({
            let back = change.reversed();
            let upgraded = replace_all(suite, change.from, change.to);
            replace_all(upgraded, back.from, back.to) == suite
        }),
{
    lemma_filled(suite, change.from, change.to);
    lemma_filled(replace_all(suite, change.from, change.to), change.to, change.from);
}

/// Reverting undoes overwriting on the name of a suite that starts with the name of the
/// suite that is upgraded from, where neither name stands in the rest of it: such as
/// `bionic` and `bionic-updates` on the way from `bionic` to `cosmic`.
pub proof fn reverting_restores_suite(change: SuiteChangeView, rest: Seq<char>)
    requires
        change.from.len() > 0,
        change.to.len() > 0,
        !occurs(change.from, rest),
        !occurs(change.to, rest),
    ensures
        ({
            let back = change.reversed();
            let suite = change.from + rest;
            let upgraded = replace_all(suite, change.from, change.to);
            &&& upgraded == change.to + rest
            &&& replace_all(upgraded, back.from, back.to) == suite
        }),
{
    lemma_replace_absent(rest, change.from, change.to);
    lemma_replace_absent(rest, change.to, change.from);
    let suite = change.from + rest;
    let upgraded = change.to + rest;
    assert(suite.subrange(0, change.from.len() as int) =~= change.from);
    assert(suite.skip(change.from.len() as int) =~= rest);
    assert(upgraded.subrange(0, change.to.len() as int) =~= change.to);
    assert(upgraded.skip(change.to.len() as int) =~= rest);
}

/// Overwriting and reverting leave the name of a suite as it is where neither the suite that
/// is upgraded from nor the one that is upgraded to stands in it.
pub proof fn reverting_keeps_other_suites(change: SuiteChangeView, suite: Seq<char>)
    requires
        change.from.len() > 0,
        change.to.len() > 0,
        !occurs(change.from, suite),
        !occurs(change.to, suite),
    ensures
        ({
            let back = change.reversed();
            let upgraded = replace_all(suite, change.from, change.to);
            &&& upgraded == suite
            &&& replace_all(upgraded, back.from, back.to) == suite
        }),
{
    lemma_replace_absent(suite, change.from, change.to);
    lemma_replace_absent(suite, change.to, change.from);
}

/// An upgrade leads to one entry for each of the list that is reached by HTTP and whose suite
/// starts with the old one, in the order of the list, and to no others. That entry differs from the
/// one in the list in its suite alone, in which the new suite takes the place of the old one.
pub proof fn upgraded_entries_follow_the_list(
    list: Seq<SourceEntryView>,
    e: SourceEntryView,
    from: Seq<char>,
    to: Seq<char>,
)
    ensures
        upgraded_entries(seq![], from, to) == Seq::<SourceEntryView>::empty(),
        upgraded_entries(list.push(e), from, to) == if "http"@.is_prefix_of(e.url)
            && from.is_prefix_of(e.suite) {
            upgraded_entries(list, from, to).push(
                SourceEntryView {
                    enabled: e.enabled,
                    source: e.source,
                    options: e.options,
                    url: e.url,
                    suite: replace_all(e.suite, from, to),
                    components: e.components,
                },
            )
        } else {
            upgraded_entries(list, from, to)
        },
        upgraded_entries(list, from, to).len() == list.filter(
            |e: SourceEntryView| "http"@.is_prefix_of(e.url) && from.is_prefix_of(e.suite),
        ).len(),
{
    reveal_with_fuel(Seq::filter, 2);
    let none = Seq::<SourceEntryView>::empty();
    assert(upgraded_entries(none, from, to) =~= none);
    let all = list.push(e);
    let test = is_upgradable(from);
    assert(all.drop_last() =~= list);
    assert(all.last() == e);
    if test(e) {
        assert(all.filter(test) == list.filter(test).push(e));
        assert(upgraded_entries(all, from, to) =~= upgraded_entries(list, from, to).push(
            moved(from, to)(e),
        ));
    } else {
        assert(all.filter(test) == list.filter(test));
    }
    let other = |e: SourceEntryView| "http"@.is_prefix_of(e.url) && from.is_prefix_of(e.suite);
    assert(test =~= other);
}

/// Every source of the old suite that is reached by HTTP is asked for under the new suite, also
/// where its suite goes on after the name of the old one, as in `bionic-security`.
pub proof fn sources_of_the_old_suite_are_asked_for(
    list: Seq<SourceEntryView>,
    from: Seq<char>,
    to: Seq<char>,
    k: int,
    rest: Seq<char>,
)
    requires
        0 <= k < list.len(),
        "http"@.is_prefix_of(list[k].url),
        from.len() > 0,
        list[k].suite == from + rest,
        forall|i: int|
            0 <= i <= rest.len() - from.len() ==> #[trigger] rest.subrange(i, i + from.len())
                != from,
    ensures
        upgraded_entries(list, from, to).contains(
            SourceEntryView {
                enabled: list[k].enabled,
                source: list[k].source,
                options: list[k].options,
                url: list[k].url,
                suite: to + rest,
                components: list[k].components,
            },
        ),
{
    let e = list[k];
    let none = Seq::<char>::empty();
    assert(none + from + rest =~= e.suite);
    crate::text::first_occurrence_is_replaced(none, from, rest, to);
    crate::text::replacing_needs_an_occurrence(rest, from, to);
    assert(none + to + rest =~= to + rest);
    assert(e.suite.subrange(0, from.len() as int) =~= from);
    let test = is_upgradable(from);
    list.lemma_filter_contains(test, k);
    let kept = list.filter(test);
    let i = kept.index_of(e);
    assert(upgraded_entries(list, from, to)[i] == moved(from, to)(e));
}

/// What is asked for is handed out entry by entry and field by field.
pub proof fn entries_to_ask_for_are_handed_out(
    list: &Vec<SourceEntry>,
    from: &str,
    to: &str,
    r: Vec<SourceEntry>,
)
    requires
        call_ensures(head_all_release_files, (list, from, to), r),
    ensures
        ({
            let expected = upgraded_entries(entry_views(list@), from@, to@);
            &&& r@.len() == expected.len()
            &&& forall|i: int|
                0 <= i < r@.len() ==> {
                    let e = #[trigger] r@[i];
                    &&& e.enabled == expected[i].enabled
                    &&& e.source == expected[i].source
                    &&& texts(e.options@) == expected[i].options
                    &&& e.url@ == expected[i].url
                    &&& e.suite@ == expected[i].suite
                    &&& texts(e.components@) == expected[i].components
                }
        }),
{
    let expected = upgraded_entries(entry_views(list@), from@, to@);
    assert forall|i: int| 0 <= i < r@.len() implies {
        let e = #[trigger] r@[i];
        &&& e.enabled == expected[i].enabled
        &&& e.source == expected[i].source
        &&& texts(e.options@) == expected[i].options
        &&& e.url@ == expected[i].url
        &&& e.suite@ == expected[i].suite
        &&& texts(e.components@) == expected[i].components
    } by {
        assert(entry_views(r@)[i] == r@[i]@);
    }
}

/// A release is there where its `InRelease`, `Release` and `Release.gpg` files are: these are asked
/// for, in the directory of the release.
pub proof fn required_files_are_asked_for(dist_path: String, r: Vec<String>)
    requires
        call_ensures(head_release_files, (dist_path,), r),
    ensures
        ({
            let dir = if dist_path@.len() > 0 && dist_path@[dist_path@.len() - 1] == '/' {
                dist_path@
            } else {
                dist_path@.push('/')
            };
            &&& r@.len() == 3
            &&& r@[0]@ == dir + "InRelease"@
            &&& r@[1]@ == dir + "Release"@
            &&& r@[2]@ == dir + "Release.gpg"@
        }),
{
    crate::dist::update::slash_is_put_at_the_end(dist_path@);
    let urls = required_urls(dist_path@);
    assert(urls.len() == 3);
    assert(texts(r@)[0] == r@[0]@ && texts(r@)[1] == r@[1]@ && texts(r@)[2] == r@[2]@);
    assert(urls[0] == with_slash(dist_path@) + REQUIRED_DIST_FILES@[0]@);
    assert(urls[1] == with_slash(dist_path@) + REQUIRED_DIST_FILES@[1]@);
    assert(urls[2] == with_slash(dist_path@) + REQUIRED_DIST_FILES@[2]@);
}

/// A URL is among those that could not be reached where asking for it failed at least once, and
/// among those that could be reached where it was asked for and never failed; each is listed once.
pub proof fn urls_are_told_apart_by_failure<E>(
    results: Seq<(Seq<char>, Result<(), E>)>,
    url: Seq<char>,
)
    ensures
        ({
            let p = partition(results);
            let failed = exists|i: int|
                0 <= i < results.len() && (#[trigger] results[i]).0 == url && results[i].1 is Err;
            let asked = exists|i: int| 0 <= i < results.len() && (#[trigger] results[i]).0 == url;
            &&& failed <==> exists|i: int|
                0 <= i < p.failure.len() && (#[trigger] p.failure[i]).0 == url
            &&& asked && !failed <==> p.success.contains(url)
            &&& p.success.no_duplicates()
            &&& forall|i: int, j: int|
                0 <= i < j < p.failure.len() ==> (#[trigger] p.failure[i]).0 != (
                #[trigger] p.failure[j]).0
        }),
{
    partition_is_by_failure(results, url);
    let p = partition(results);
    assert(has_failed(p.failure, url) <==> exists|i: int|
        0 <= i < p.failure.len() && (#[trigger] p.failure[i]).0 == url);
}

/// The reason that is handed out for a URL is that of the first time that asking for it failed.
pub proof fn first_reason_is_kept<E>(results: Seq<(Seq<char>, Result<(), E>)>, i: int)
    requires
        0 <= i < partition(results).failure.len(),
    ensures
        exists|j: int|
            0 <= j < results.len() && #[trigger] results[j] == (
                partition(results).failure[i].0,
                Err::<(), E>(partition(results).failure[i].1),
            ) && forall|m: int|
                0 <= m < j ==> (#[trigger] results[m]).0 != results[j].0 || results[m].1 is Ok,
    decreases results.len(),
{
    let rest = results.drop_last();
    let known = partition(rest);
    let p = partition(results);
    let last = results.len() - 1;
    assert(results[last] == results.last());
    if i < known.failure.len() {
        first_reason_is_kept(rest, i);
        assert(p.failure[i] == known.failure[i]);
        let j = choose|j: int|
            0 <= j < rest.len() && #[trigger] rest[j] == (
                known.failure[i].0,
                Err::<(), E>(known.failure[i].1),
            ) && forall|m: int|
                0 <= m < j ==> (#[trigger] rest[m]).0 != rest[j].0 || rest[m].1 is Ok;
        assert(results[j] == rest[j]);
        assert forall|m: int| 0 <= m < j implies (#[trigger] results[m]).0 != results[j].0
            || results[m].1 is Ok by {
            assert(results[m] == rest[m]);
        }
    } else {
        let url = results.last().0;
        partition_is_by_failure(rest, url);
        assert(!has_failed(known.failure, url));
        assert forall|m: int| 0 <= m < last implies (#[trigger] results[m]).0 != results[last].0
            || results[m].1 is Ok by {
            assert(results[m] == rest[m]);
        }
    }
}

/// Where asking succeeds, a URL is added behind those that could be reached, unless it is known
/// already; where it fails for the first time, it is added behind those that could not be.
pub proof fn urls_are_listed_as_they_are_asked_for<E>(
    results: Seq<(Seq<char>, Result<(), E>)>,
    url: Seq<char>,
    result: Result<(), E>,
)
    requires
        forall|i: int|
            0 <= i < results.len() && (#[trigger] results[i]).0 == url ==> results[i].1 is Ok,
    ensures
        ({
            let before = partition(results);
            let after = partition(results.push((url, result)));
            match result {
                Ok(_) => after.failure == before.failure && after.success
                    == if before.success.contains(url) {
                    before.success
                } else {
                    before.success.push(url)
                },
                Err(why) => after.failure == before.failure.push((url, why)) && (
                !before.success.contains(url) ==> after.success == before.success),
            }
        }),
{
    let all = results.push((url, result));
    assert(all.drop_last() =~= results);
    assert(all.last() == (url, result));
    partition_is_by_failure(results, url);
}

/// What is handed out of the results is what they come to, in the same order.
pub proof fn partition_is_handed_out<E>(
    results: Vec<(SourceEntry, Result<(), E>)>,
    r: (Vec<String>, Vec<(String, E)>),
)
    requires
        call_ensures(partition_results::<E>, (results,), r),
    ensures
        ({
            let asked = Seq::new(
                results@.len(),
                |i: int| (results@[i].0.url@, results@[i].1),
            );
            let p = partition(asked);
            &&& texts(r.0@) == p.success
            &&& r.1@.len() == p.failure.len()
            &&& forall|i: int|
                0 <= i < r.1@.len() ==> (#[trigger] r.1@[i]).0@ == p.failure[i].0 && r.1@[i].1
                    == p.failure[i].1
        }),
{
    let asked = Seq::new(results@.len(), |i: int| (results@[i].0.url@, results@[i].1));
    assert(asked =~= result_views(results@));
    let p = partition(asked);
    assert(failure_views(r.1@) == p.failure);
    assert forall|i: int| 0 <= i < r.1@.len() implies (#[trigger] r.1@[i]).0@ == p.failure[i].0
        && r.1@[i].1 == p.failure[i].1 by {
        assert(failure_views(r.1@)[i] == (r.1@[i].0@, r.1@[i].1));
    }
}

/// An upgrade is possible exactly where the files of every entry that it leads to are there. Where
/// it is not, the URLs are handed out that could be reached, and those that could not be.
pub proof fn upgrade_is_possible_where_all_is_there(
    request: UpgradeRequest,
    from: String,
    to: String,
    outcomes: Vec<Result<(), reqwest::Error>>,
    r: Result<Upgrader, DistUpgradeError>,
    url: Seq<char>,
)
    requires
        call_ensures(UpgradeRequest::send, (request, from, to, outcomes), r),
    ensures
        (forall|i: int| 0 <= i < outcomes@.len() ==> #[trigger] outcomes@[i] is Ok) ==> (
        r matches Ok(upgrader) && upgrader.list() == request.list@ && upgrader.trusted_keys()
            == request.keyring),
        (exists|i: int| 0 <= i < outcomes@.len() && #[trigger] outcomes@[i] is Err) ==> (
        r matches Err(DistUpgradeError::SourcesUnavailable { success, failure }) && ({
            let entries = upgraded_entries(entry_views(request.list@), from@, to@);
            let failed = exists|i: int|
                0 <= i < outcomes@.len() && (#[trigger] entries[i]).url == url && outcomes@[i] is Err;
            let asked = exists|i: int|
                0 <= i < outcomes@.len() && (#[trigger] entries[i]).url == url;
            &&& failed <==> exists|i: int|
                0 <= i < failure@.len() && (#[trigger] failure@[i]).0@ == url
            &&& asked && !failed <==> texts(success@).contains(url)
        })),
{
    if exists|i: int| 0 <= i < outcomes@.len() && #[trigger] outcomes@[i] is Err {
        let i = choose|i: int| 0 <= i < outcomes@.len() && #[trigger] outcomes@[i] is Err;
        assert(!(outcomes@[i] is Ok));
        let entries = upgraded_entries(entry_views(request.list@), from@, to@);
        let all = answers(entry_views(request.list@), from@, to@, outcomes@);
        let (success, failure) = match r {
            Err(DistUpgradeError::SourcesUnavailable { success, failure }) => (success, failure),
            _ => (arbitrary(), arbitrary()),
        };
        urls_are_told_apart_by_failure(all, url);
        let p = partition(all);
        assert(p.failure == failure_views(failure@));
        assert forall|k: int| 0 <= k < all.len() implies #[trigger] all[k] == (
            entries[k].url,
            outcomes@[k],
        ) by {}
        if exists|k: int|
            0 <= k < outcomes@.len() && (#[trigger] entries[k]).url == url && outcomes@[k] is Err {
            let k = choose|k: int|
                0 <= k < outcomes@.len() && (#[trigger] entries[k]).url == url
                    && outcomes@[k] is Err;
            assert(all[k].0 == url && all[k].1 is Err);
        }
        if exists|k: int| 0 <= k < outcomes@.len() && (#[trigger] entries[k]).url == url {
            let k = choose|k: int| 0 <= k < outcomes@.len() && (#[trigger] entries[k]).url == url;
            assert(all[k].0 == url);
        }
        if exists|k: int| 0 <= k < all.len() && (#[trigger] all[k]).0 == url && all[k].1 is Err {
            let k = choose|k: int|
                0 <= k < all.len() && (#[trigger] all[k]).0 == url && all[k].1 is Err;
            assert(entries[k].url == url);
        }
        if exists|k: int| 0 <= k < all.len() && (#[trigger] all[k]).0 == url {
            let k = choose|k: int| 0 <= k < all.len() && (#[trigger] all[k]).0 == url;
            assert(entries[k].url == url);
        }
        assert(p.failure.len() == failure@.len());
        if exists|k: int| 0 <= k < p.failure.len() && (#[trigger] p.failure[k]).0 == url {
            let k = choose|k: int| 0 <= k < p.failure.len() && (#[trigger] p.failure[k]).0 == url;
            assert(failure_views(failure@)[k] == (failure@[k].0@, failure@[k].1));
            assert(failure@[k].0@ == url);
        }
        if exists|k: int| 0 <= k < failure@.len() && (#[trigger] failure@[k]).0@ == url {
            let k = choose|k: int| 0 <= k < failure@.len() && (#[trigger] failure@[k]).0@ == url;
            assert(failure_views(failure@)[k] == (failure@[k].0@, failure@[k].1));
            assert(p.failure[k].0 == url);
        }
    }
}

/// An upgrade that is possible changes the apt sources from the suite that was asked for to the
/// other, first of all; reverting is the same change the other way round.
pub proof fn upgrade_changes_the_suites_asked_for(
    request: UpgradeRequest,
    from: String,
    to: String,
    outcomes: Vec<Result<(), reqwest::Error>>,
    upgrader: Upgrader,
    step: DistUpgradeStep,
    forth: SuiteChange,
    back: SuiteChange,
)
    requires
        call_ensures(UpgradeRequest::send, (request, from, to, outcomes), Ok(upgrader)),
        call_ensures(Upgrader::dist_upgrade, (upgrader,), step),
        call_ensures(Upgrader::overwrite_apt_sources, (&upgrader,), forth),
        call_ensures(Upgrader::revert_apt_sources, (&upgrader,), back),
    ensures
        forth.from@ == from@,
        forth.to@ == to@,
        back.from@ == to@,
        back.to@ == from@,
        step matches DistUpgradeStep::Overwrite(same, change) && same == upgrader && change.from@
            == from@ && change.to@ == to@,
{
}

/// Once the apt sources are changed, the new dist files are fetched. Where that fails, the apt
/// sources are changed back, and the upgrade has failed for the reason of the update, together
/// with that of the restoration where this failed too. A failure hands the upgrader back.
pub proof fn failed_upgrade_is_taken_back(
    upgrader: Upgrader,
    forth: SuiteChange,
    changed: Result<(), std::io::Error>,
    after_change: DistUpgradeStep,
    updated: Result<Outcomes, DistUpdateError>,
    after_update: DistUpgradeStep,
    cause: DistUpdateError,
    restored: Result<(), std::io::Error>,
    after_restore: DistUpgradeStep,
)
    requires
        call_ensures(Upgrader::overwrite_apt_sources, (&upgrader,), forth),
        call_ensures(Upgrader::overwritten, (upgrader, changed), after_change),
        call_ensures(Upgrader::update_dist_files, (upgrader, updated), after_update),
        call_ensures(Upgrader::restored, (upgrader, cause, restored), after_restore),
    ensures
        changed is Ok ==> after_change == DistUpgradeStep::Update(upgrader),
        changed matches Err(why) ==> after_change == DistUpgradeStep::Failed(
            upgrader,
            DistUpgradeError::AptFileOverwrite { why },
        ),
        updated matches Ok(outcomes) ==> after_update == DistUpgradeStep::Done(outcomes),
        updated matches Err(why) ==> (after_update matches DistUpgradeStep::Restore(
            same,
            change,
            e,
        ) && same == upgrader && change.from@ == forth.to@ && change.to@ == forth.from@ && e == why),
        restored is Ok ==> after_restore == DistUpgradeStep::Failed(
            upgrader,
            DistUpgradeError::AptFileUpdate { why: cause },
        ),
        restored matches Err(e) ==> (after_restore matches DistUpgradeStep::Failed(
            same,
            DistUpgradeError::AptFileUpdateRestore { why, file_why },
        ) && same == upgrader && why == cause && *file_why == (DistUpgradeError::AptFileOverwrite {
            why: e,
        })),
{
}

/// An error in words says what failed, and then why.
pub proof fn upgrade_errors_say_what_failed(error: DistUpgradeError, text: Seq<char>)
    requires
        error.says(text),
    ensures
        match error {
            DistUpgradeError::Tokio { what, why } => exists|words: String| #[trigger]
                to_string_from_display_ensures::<std::io::Error>(&why, words) && text
                    == "tokio error: failure "@ + what@ + ": "@ + words@,
            DistUpgradeError::SourcesUnavailable { .. } => text
                == "some apt sources could not be reached"@,
            DistUpgradeError::Request { why } => exists|words: String| #[trigger]
                to_string_from_display_ensures::<reqwest::Error>(&why, words) && text
                    == "http/s request failed: "@ + words@,
            DistUpgradeError::AptFileOverwrite { why } => exists|words: String| #[trigger]
                to_string_from_display_ensures::<std::io::Error>(&why, words) && text
                    == "failed to overwrite apt source files: "@ + words@,
            DistUpgradeError::AptFileUpdate { why } => exists|words: Seq<char>| #[trigger]
                why.says(words) && text == "failed to fetch apt sources: "@ + words,
            DistUpgradeError::AptFileUpdateRestore { why, file_why } => exists|
                update: Seq<char>,
                restore: Seq<char>,
            | #[trigger]
                why.says(update) && #[trigger] file_why.says(restore) && text
                    == "failed to fetch apt sources[0] and restore apt files[1]: \n\t[0] "@ + update
                    + "\n\t[1] "@ + restore,
        },
{
    if let DistUpgradeError::AptFileUpdateRestore { why, file_why } = error {
        let (update, restore) = choose|update: Seq<char>, restore: Seq<char>|
            {
                &&& why.says(update)
                &&& file_why.says(restore)
                &&& text == #[trigger] both_failed(update, restore)
            };
        assert(why.says(update) && file_why.says(restore));
    }
}

/// Once asking for a URL has failed, what comes of asking for it again changes nothing. Where it
/// fails for the first time after it was reached, the last of those that could be reached takes its
/// place.
pub proof fn failure_is_final<E>(
    results: Seq<(Seq<char>, Result<(), E>)>,
    url: Seq<char>,
    result: Result<(), E>,
    i: int,
    k: int,
)
    ensures
        0 <= i < results.len() && results[i].0 == url && results[i].1 is Err ==> partition(
            results.push((url, result)),
        ) == partition(results),
        ({
            let before = partition(results);
            result is Err && (forall|i: int|
                0 <= i < results.len() && (#[trigger] results[i]).0 == url ==> results[i].1 is Ok)
                && 0 <= k < before.success.len() && before.success[k] == url ==> partition(
                results.push((url, result)),
            ).success == before.success.update(
                k,
                before.success[before.success.len() - 1],
            ).drop_last()
        }),
{
    let all = results.push((url, result));
    assert(all.drop_last() =~= results);
    assert(all.last() == (url, result));
    partition_is_by_failure(results, url);
    let before = partition(results);
    if 0 <= i < results.len() && results[i].0 == url && results[i].1 is Err {
        assert(failed_once(results, url));
    }
    if 0 <= k < before.success.len() && before.success[k] == url {
        assert(before.success.contains(url));
        before.success.index_of_first_ensures(url);
        let first = before.success.index_of_first(url)->0;
        assert(first == k);
    }
}

/// Where an upgrade is not possible, the URLs and reasons that are handed out are those that asking
/// for the entries in turn came to.
pub proof fn reasons_against_an_upgrade_are_handed_out(
    request: UpgradeRequest,
    from: String,
    to: String,
    outcomes: Vec<Result<(), reqwest::Error>>,
    success: Vec<String>,
    failure: Vec<(String, reqwest::Error)>,
)
    requires
        call_ensures(
            UpgradeRequest::send,
            (request, from, to, outcomes),
            Err(DistUpgradeError::SourcesUnavailable { success, failure }),
        ),
    ensures
        ({
            let entries = upgraded_entries(entry_views(request.list@), from@, to@);
            let asked = Seq::new(outcomes@.len(), |i: int| (entries[i].url, outcomes@[i]));
            let p = partition(asked);
            &&& texts(success@) == p.success
            &&& failure@.len() == p.failure.len()
            &&& forall|i: int|
                0 <= i < failure@.len() ==> (#[trigger] failure@[i]).0@ == p.failure[i].0
                    && failure@[i].1 == p.failure[i].1
        }),
{
    let entries = upgraded_entries(entry_views(request.list@), from@, to@);
    let asked = Seq::new(outcomes@.len(), |i: int| (entries[i].url, outcomes@[i]));
    assert(asked =~= answers(entry_views(request.list@), from@, to@, outcomes@));
    let p = partition(asked);
    assert(p.failure == failure_views(failure@));
    assert forall|i: int| 0 <= i < failure@.len() implies (#[trigger] failure@[i]).0@
        == p.failure[i].0 && failure@[i].1 == p.failure[i].1 by {
        assert(failure_views(failure@)[i] == (failure@[i].0@, failure@[i].1));
    }
}

/// The keyring that is set for an upgrade is the one that its update is made with.
pub proof fn keyring_of_the_upgrade_is_used(
    list: Vec<SourceEntry>,
    bare: UpgradeRequest,
    keyring: Arc<AptKeyring>,
    request: UpgradeRequest,
    from: String,
    to: String,
    outcomes: Vec<Result<(), reqwest::Error>>,
    upgrader: Upgrader,
    used: &Option<Arc<AptKeyring>>,
)
    requires
        call_ensures(UpgradeRequest::new, (list,), bare),
        call_ensures(UpgradeRequest::keyring, (bare, keyring), request),
        call_ensures(UpgradeRequest::send, (request, from, to, outcomes), Ok(upgrader)),
        call_ensures(Upgrader::keyring, (&upgrader,), used),
    ensures
        bare.keyring is None,
        request.list == list,
        *used == Some(keyring),
        upgrader.list() == list@,
{
}

/// What an error is put in is what it says.
pub proof fn upgrade_errors_are_put_in_words(error: &DistUpgradeError, text: String)
    requires
        call_ensures(DistUpgradeError::message, (error,), text),
    ensures
        error.says(text@),
{
}

/// An upgrade is decided on as soon as it is known of each entry that it leads to whether its files
/// are there.
pub proof fn upgrade_is_decided_on_all_entries(
    request: UpgradeRequest,
    from: String,
    to: String,
    outcomes: Vec<Result<(), reqwest::Error>>,
)
    requires
        outcomes@.len() == upgraded_entries(entry_views(request.list@), from@, to@).len(),
    ensures
        call_requires(UpgradeRequest::send, (request, from, to, outcomes)),
{
}

} // verus!
