//! The entries of the apt source lists.
use crate::text::{clone_texts, texts};
use vstd::prelude::*;
use vstd::string::*;

verus! {

/// An entry of an apt source list.
pub struct SourceEntry {
    /// Whether the entry is in effect.
    pub enabled: bool,
    /// Whether the entry is about source packages.
    pub source: bool,
    pub options: Vec<String>,
    pub url: String,
    pub suite: String,
    pub components: Vec<String>,
}

#[verifier::ext_equal]
pub struct SourceEntryView {
    pub enabled: bool,
    pub source: bool,
    pub options: Seq<Seq<char>>,
    pub url: Seq<char>,
    pub suite: Seq<char>,
    pub components: Seq<Seq<char>>,
}

impl View for SourceEntry {
    type V = SourceEntryView;

    open spec fn view(&self) -> SourceEntryView {
        SourceEntryView {
            enabled: self.enabled,
            source: self.source,
            options: texts(self.options@),
            url: self.url@,
            suite: self.suite@,
            components: texts(self.components@),
        }
    }
}

impl SourceEntry {
    /// The same entry for the suite `suite`.
    pub fn with_suite(&self, suite: String) -> (r: Self)
        ensures
            r@ == (SourceEntryView { suite: suite@, ..self@ }),
    {
        SourceEntry {
            enabled: self.enabled,
            source: self.source,
            options: clone_texts(&self.options),
            url: self.url.clone(),
            suite,
            components: clone_texts(&self.components),
        }
    }
}

/// An entry, and the directory in which its release file stands.
pub struct LocatedEntry {
    pub entry: SourceEntry,
    pub dist_path: String,
}

#[verifier::ext_equal]
pub struct LocatedEntryView {
    pub entry: SourceEntryView,
    pub dist_path: Seq<char>,
}

impl View for LocatedEntry {
    type V = LocatedEntryView;

    open spec fn view(&self) -> LocatedEntryView {
        LocatedEntryView { entry: self.entry@, dist_path: self.dist_path@ }
    }
}

/// The entries that `list` holds.
pub open spec fn entry_views(list: Seq<SourceEntry>) -> Seq<SourceEntryView> {
    list.map_values(|e: SourceEntry| e@)
}

/// The located entries that `list` holds.
pub open spec fn located_views(list: Seq<LocatedEntry>) -> Seq<LocatedEntryView> {
    list.map_values(|e: LocatedEntry| e@)
}

/// Entries are seen as what they hold, one by one and field by field.
pub proof fn entries_are_seen_in_full(
    list: Seq<SourceEntry>,
    located: Seq<LocatedEntry>,
    i: int,
)
    ensures
        entry_views(list).len() == list.len(),
        0 <= i < list.len() ==> {
            let e = entry_views(list)[i];
            &&& e.enabled == list[i].enabled
            &&& e.source == list[i].source
            &&& e.options == texts(list[i].options@)
            &&& e.url == list[i].url@
            &&& e.suite == list[i].suite@
            &&& e.components == texts(list[i].components@)
        },
        located_views(located).len() == located.len(),
        0 <= i < located.len() ==> {
            let e = located_views(located)[i];
            &&& e.entry.enabled == located[i].entry.enabled
            &&& e.entry.source == located[i].entry.source
            &&& e.entry.options == texts(located[i].entry.options@)
            &&& e.entry.url == located[i].entry.url@
            &&& e.entry.suite == located[i].entry.suite@
            &&& e.entry.components == texts(located[i].entry.components@)
            &&& e.dist_path == located[i].dist_path@
        },
{
}

} // verus!
