//! The release file of an apt repository: the files that it lists for each
//! checksum method, and what kind of file a listed path names.
use crate::text::{
    chars_of, is_one_byte, is_white_space, join2, matches_at, same, starts_with, texts, white_space,
};
use apt_release_file::{BinaryEntry, Dep11Entry, EntryVariant as Variant, ReleaseEntry as Entry};
use std::collections::BTreeMap;
use vstd::prelude::*;
use vstd::string::*;

verus! {

/// The checksum, size and path of a file that a release file lists.
pub struct ReleaseEntry {
    pub sum: String,
    pub size: u64,
    pub path: String,
}

#[verifier::ext_equal]
pub struct ReleaseEntryView {
    pub sum: Seq<char>,
    pub size: u64,
    pub path: Seq<char>,
}

impl View for ReleaseEntry {
    type V = ReleaseEntryView;

    open spec fn view(&self) -> ReleaseEntryView {
        ReleaseEntryView { sum: self.sum@, size: self.size, path: self.path@ }
    }
}

/// The entries whose paths agree up to their first dot, under that common part.
pub struct ReleaseItem {
    pub name: String,
    pub entries: Vec<ReleaseEntry>,
}

#[verifier::ext_equal]
pub struct ReleaseItemView {
    pub name: Seq<char>,
    pub entries: Seq<ReleaseEntryView>,
}

impl View for ReleaseItem {
    type V = ReleaseItemView;

    open spec fn view(&self) -> ReleaseItemView {
        ReleaseItemView {
            name: self.name@,
            entries: self.entries@.map_values(|e: ReleaseEntry| e@),
        }
    }
}

/// The items of one component of a repository, such as `main`.
pub struct ReleaseComponent {
    pub name: String,
    pub items: Vec<ReleaseItem>,
}

#[verifier::ext_equal]
pub struct ReleaseComponentView {
    pub name: Seq<char>,
    pub items: Seq<ReleaseItemView>,
}

impl View for ReleaseComponent {
    type V = ReleaseComponentView;

    open spec fn view(&self) -> ReleaseComponentView {
        ReleaseComponentView {
            name: self.name@,
            items: self.items@.map_values(|i: ReleaseItem| i@),
        }
    }
}

/// Everything that a release file lists under one checksum method.
pub struct EntryComponents {
    /// The name of the checksum method, such as `SHA256`.
    pub method: String,
    pub base: Vec<ReleaseItem>,
    pub components: Vec<ReleaseComponent>,
}

#[verifier::ext_equal]
pub struct EntryComponentsView {
    pub method: Seq<char>,
    pub base: Seq<ReleaseItemView>,
    pub components: Seq<ReleaseComponentView>,
}

impl View for EntryComponents {
    type V = EntryComponentsView;

    open spec fn view(&self) -> EntryComponentsView {
        EntryComponentsView {
            method: self.method@,
            base: self.base@.map_values(|i: ReleaseItem| i@),
            components: self.components@.map_values(|c: ReleaseComponent| c@),
        }
    }
}

/// A parsed release file.
pub struct DistRelease {
    pub sums: Vec<EntryComponents>,
}

impl View for DistRelease {
    type V = Seq<EntryComponentsView>;

    open spec fn view(&self) -> Seq<EntryComponentsView> {
        self.sums@.map_values(|s: EntryComponents| s@)
    }
}

/// The kind of file that a path in a release file names.
pub enum EntryVariant {
    /// A `Packages` index: the extension of its file name, and its architecture.
    Packages(Option<String>, String),
    /// The `Release` file of an architecture.
    BinaryRelease(String),
    /// A `Contents` index of an architecture.
    Contents(String),
    /// The AppStream metadata of an architecture.
    Dep11Components(String),
    /// A set of AppStream icons.
    Dep11Icons,
    /// A file of the source packages.
    Source,
    /// A translation.
    I18n,
}

#[verifier::ext_equal]
pub enum EntryVariantView {
    Packages(Option<Seq<char>>, Seq<char>),
    BinaryRelease(Seq<char>),
    Contents(Seq<char>),
    Dep11Components(Seq<char>),
    Dep11Icons,
    Source,
    I18n,
}

/// The text of an optional string.
pub open spec fn text_of(s: Option<String>) -> Option<Seq<char>> {
    match s {
        Some(t) => Some(t@),
        None => None,
    }
}

impl View for EntryVariant {
    type V = EntryVariantView;

    open spec fn view(&self) -> EntryVariantView {
        match *self {
            EntryVariant::Packages(ext, arch) => EntryVariantView::Packages(text_of(ext), arch@),
            EntryVariant::BinaryRelease(arch) => EntryVariantView::BinaryRelease(arch@),
            EntryVariant::Contents(arch) => EntryVariantView::Contents(arch@),
            EntryVariant::Dep11Components(arch) => EntryVariantView::Dep11Components(arch@),
            EntryVariant::Dep11Icons => EntryVariantView::Dep11Icons,
            EntryVariant::Source => EntryVariantView::Source,
            EntryVariant::I18n => EntryVariantView::I18n,
        }
    }
}

/// The variant that an optional value holds.
pub open spec fn variant_view(v: Option<EntryVariant>) -> Option<EntryVariantView> {
    match v {
        Some(x) => Some(x@),
        None => None,
    }
}

/// The position of the first `c` in `s`, or the length of `s` where there is none.
pub open spec fn find(s: Seq<char>, c: char) -> nat
    decreases s.len(),
{
    if s.len() == 0 || s[0] == c {
        0
    } else {
        1 + find(s.drop_first(), c)
    }
}

pub proof fn lemma_find(s: Seq<char>, c: char)
    ensures
        find(s, c) <= s.len(),
        forall|i: int| 0 <= i < find(s, c) ==> #[trigger] s[i] != c,
        find(s, c) < s.len() ==> s[find(s, c) as int] == c,
    decreases s.len(),
{
    if s.len() > 0 && s[0] != c {
        let rest = s.drop_first();
        lemma_find(rest, c);
        assert forall|i: int| 0 <= i < find(s, c) implies #[trigger] s[i] != c by {
            if i > 0 {
                assert(s[i] == rest[i - 1]);
            }
        }
        if find(s, c) < s.len() {
            assert(s[find(s, c) as int] == rest[find(rest, c) as int]);
        }
    }
}

/// Whether `name` is a Debian architecture.
pub open spec fn is_architecture(name: Seq<char>) -> bool {
    ||| name == "any"@
    ||| name == "all"@
    ||| name == "amd64"@
    ||| name == "armel"@
    ||| name == "armhf"@
    ||| name == "arm64"@
    ||| name == "i386"@
    ||| name == "mips"@
    ||| name == "mipsel"@
    ||| name == "mips64"@
    ||| name == "mips64el"@
    ||| name == "ppc64el"@
    ||| name == "s390x"@
    ||| name == "linux-any"@
    ||| name == "x32"@
}

/// Whether the kind of `path` can be told. It cannot where the file name goes on,
/// after the part that names its kind, with a character of more than one byte,
/// nor for a `Translation` without a locale.
pub open spec fn variant_defined(path: Seq<char>) -> bool
    decreases path.len(),
    via variant_defined_decreases
{
    let n = find(path, '/');
    if n >= path.len() {
        true
    } else {
        let dir = path.take(n as int);
        let file = path.skip(n as int + 1);
        if "binary-"@.is_prefix_of(dir) {
            is_architecture(dir.skip("binary-"@.len() as int)) ==> suffix_defined(
                file,
                "Packages"@,
            )
        } else if dir == "debian-installer"@ || dir == "dep11"@ {
            true
        } else if dir == "i18n"@ {
            suffix_defined(file, "Translation"@) && file != "Translation"@
        } else if dir == "source"@ {
            suffix_defined(file, "Sources"@)
        } else {
            variant_defined(file)
        }
    }
}

#[via_fn]
proof fn variant_defined_decreases(path: Seq<char>) {
}

/// Whether `file`, where it starts with `kind`, goes on with a character of one
/// byte if it goes on.
pub open spec fn suffix_defined(file: Seq<char>, kind: Seq<char>) -> bool {
    kind.is_prefix_of(file) && file.len() > kind.len() ==> is_one_byte(file[kind.len() as int])
}

/// Whether `path` ends with the word `Packages`, one character of one byte, and
/// `ext`.
pub open spec fn ends_in_packages(path: Seq<char>, ext: Seq<char>) -> bool {
    let at = path.len() - ext.len() - 1;
    &&& at >= 0
    &&& "Packages"@.is_suffix_of(path.take(at))
    &&& is_one_byte(path[at])
    &&& path.skip(at + 1) == ext
}

/// The kind of file that the path of a release file entry names, as
/// `apt_release_file::ReleaseEntry::variant` tells it.
pub uninterp spec fn entry_variant(path: Seq<char>) -> Option<EntryVariantView>;

/// Tells the kind of file that a path names: `apt_release_file::ReleaseEntry::variant`
/// on an entry with that path. The result depends on the path alone. An extension
/// of a `Packages` index is what follows the word `Packages` and one more
/// character, of one byte, at the end of the path.
#[verifier::external_body]
pub(crate) fn variant_of(path: &str) -> (r: Option<EntryVariant>)
    requires
        variant_defined(path@),
    ensures
        variant_view(r) == entry_variant(path@),
        r matches Some(EntryVariant::Packages(Some(ext), _)) ==> ends_in_packages(path@, ext@),
{
    let entry = apt_release_file::ReleaseEntry { path: path.to_owned(), ..Default::default() };
    Some(match entry.variant()? {
        Variant::Binary(BinaryEntry::Packages(ext), arch) => EntryVariant::Packages(ext, <&str>::from(arch).into()),
        Variant::Binary(BinaryEntry::Release, arch) => EntryVariant::BinaryRelease(<&str>::from(arch).into()),
        Variant::Contents(arch, _) => EntryVariant::Contents(<&str>::from(arch).into()),
        Variant::Dep11(Dep11Entry::Components(arch, _)) => EntryVariant::Dep11Components(<&str>::from(arch).into()),
        Variant::Dep11(Dep11Entry::Icons(..)) => EntryVariant::Dep11Icons,
        Variant::Source(_) => EntryVariant::Source,
        Variant::I18n(_) => EntryVariant::I18n,
    })
}

/// Tests whether `name` is a Debian architecture.
fn known_architecture(name: &str) -> (r: bool)
    ensures
        r == is_architecture(name@),
{
    same(name, "any") || same(name, "all") || same(name, "amd64") || same(name, "armel") || same(
        name,
        "armhf",
    ) || same(name, "arm64") || same(name, "i386") || same(name, "mips") || same(name, "mipsel")
        || same(name, "mips64") || same(name, "mips64el") || same(name, "ppc64el") || same(
        name,
        "s390x",
    ) || same(name, "linux-any") || same(name, "x32")
}

/// Tests [`suffix_defined`] on the file name that starts at `at` in `path`.
fn check_suffix(path: &Vec<char>, at: usize, kind: &str) -> (r: bool)
    requires
        at <= path@.len(),
    ensures
        r == suffix_defined(path@.skip(at as int), kind@),
{
    let k = chars_of(kind);
    let ghost file = path@.skip(at as int);
    if k.len() >= path.len() - at {
        return true;
    }
    assert(file.subrange(0, kind@.len() as int) == path@.subrange(at as int, at + kind@.len()));
    !matches_at(path, at, &k) || path[at + k.len()] <= '\u{7f}'
}

/// A character that occurs nowhere before position `n` is found there.
proof fn lemma_find_at(s: Seq<char>, c: char, n: int)
    requires
        0 <= n <= s.len(),
        forall|i: int| 0 <= i < n ==> #[trigger] s[i] != c,
        n < s.len() ==> s[n] == c,
    ensures
        find(s, c) == n,
{
    lemma_find(s, c);
    if find(s, c) < n {
        assert(s[find(s, c) as int] != c);
    }
}

/// Tests whether the kind of `path` can be told.
pub fn has_variant_defined(path: &str) -> (r: bool)
    ensures
        r == variant_defined(path@),
{
    let cs = chars_of(path);
    let mut start: usize = 0;
    assert(path@.skip(0) == path@);
    loop
        invariant
            cs@ == path@,
            start <= cs@.len(),
            variant_defined(path@) == variant_defined(path@.skip(start as int)),
        decreases cs@.len() - start,
    {
        let ghost rest = path@.skip(start as int);
        let mut n: usize = start;
        while n < cs.len() && cs[n] != '/'
            invariant
                cs@ == path@,
                start <= n <= cs@.len(),
                forall|i: int| start <= i < n ==> #[trigger] path@[i] != '/',
            decreases cs@.len() - n,
        {
            n = n + 1;
        }
        proof {
            lemma_find_at(rest, '/', n - start);
        }
        if n == cs.len() {
            return true;
        }
        let dir = path.substring_char(start, n);
        proof {
            assert(dir@ == rest.take(n - start));
            assert(rest.skip(n - start + 1) == path@.skip(n + 1));
        }
        if starts_with(dir, "binary-") {
            proof {
                reveal_strlit("binary-");
                assert(rest.take(n - start).skip("binary-"@.len() as int) == path@.subrange(
                    start + 7,
                    n as int,
                ));
            }
            return !known_architecture(path.substring_char(start + 7, n)) || check_suffix(
                &cs,
                n + 1,
                "Packages",
            );
        }
        if same(dir, "debian-installer") || same(dir, "dep11") {
            return true;
        }
        if same(dir, "i18n") {
            return check_suffix(&cs, n + 1, "Translation") && !same(
                path.substring_char(n + 1, cs.len()),
                "Translation",
            );
        }
        if same(dir, "source") {
            return check_suffix(&cs, n + 1, "Sources");
        }
        start = n + 1;
    }
}

/// `line` without the carriage return that may stand at its end.
pub open spec fn without_cr(line: Seq<char>) -> Seq<char> {
    if line.len() > 0 && line.last() == '\r' {
        line.drop_last()
    } else {
        line
    }
}

/// The lines of `s`. A line ends with a line feed, or with a carriage return and
/// a line feed; the last line may have no end.
pub open spec fn lines(s: Seq<char>) -> Seq<Seq<char>>
    decreases s.len(),
    via lines_decreases
{
    let n = find(s, '\n');
    if s.len() == 0 {
        seq![]
    } else if n >= s.len() {
        seq![s]
    } else {
        seq![without_cr(s.take(n as int))] + lines(s.skip(n as int + 1))
    }
}

#[via_fn]
proof fn lines_decreases(s: Seq<char>) {
}

/// Splits `s` into its lines.
pub fn split_lines(s: &str) -> (r: Vec<String>)
    ensures
        texts(r@) == lines(s@),
{
    let cs = chars_of(s);
    let mut r: Vec<String> = Vec::new();
    let mut start: usize = 0;
    assert(s@.skip(0) == s@);
    assert(texts(r@) + lines(s@) == lines(s@));
    while start < cs.len()
        invariant
            cs@ == s@,
            start <= cs@.len(),
            texts(r@) + lines(s@.skip(start as int)) == lines(s@),
        decreases cs@.len() - start,
    {
        let ghost rest = s@.skip(start as int);
        let ghost before = r@;
        let mut n: usize = start;
        while n < cs.len() && cs[n] != '\n'
            invariant
                cs@ == s@,
                start <= n <= cs@.len(),
                forall|i: int| start <= i < n ==> #[trigger] s@[i] != '\n',
            decreases cs@.len() - n,
        {
            n = n + 1;
        }
        proof {
            lemma_find_at(rest, '\n', n - start);
        }
        if n == cs.len() {
            r.push(s.substring_char(start, n).to_owned());
            assert(s@.subrange(start as int, n as int) == rest);
            assert(texts(r@) =~= texts(before) + seq![rest]);
            return r;
        }
        let end: usize = if n > start && cs[n - 1] == '\r' {
            n - 1
        } else {
            n
        };
        r.push(s.substring_char(start, end).to_owned());
        proof {
            let line = without_cr(rest.take(n - start));
            assert(s@.subrange(start as int, end as int) == line);
            assert(rest.skip(n - start + 1) == s@.skip(n + 1));
            assert(texts(r@) =~= texts(before) + seq![line]);
            assert(texts(r@) + lines(s@.skip(n + 1)) =~= texts(before) + (seq![line] + lines(
                s@.skip(n + 1),
            )));
        }
        start = n + 1;
    }
    assert(s@.skip(start as int) == Seq::<char>::empty());
    assert(texts(r@) + Seq::<Seq<char>>::empty() =~= texts(r@));
    r
}

/// The fields that stand at the head of a release file.
pub open spec fn header_keys() -> Seq<Seq<char>> {
    seq![
        "Architectures:"@,
        "Codename:"@,
        "Components:"@,
        "Date:"@,
        "Description:"@,
        "Label:"@,
        "Origin:"@,
        "Suite:"@,
        "Version:"@,
    ]
}

/// The position of the first of `keys` that `line` starts with, or the number of
/// keys where it starts with none.
pub open spec fn key_of(line: Seq<char>, keys: Seq<Seq<char>>) -> nat
    decreases keys.len(),
{
    if keys.len() == 0 || keys[0].is_prefix_of(line) {
        0
    } else {
        1 + key_of(line, keys.drop_first())
    }
}

/// Whether at most one byte of white space stands before the rest of `line`.
pub open spec fn barely_indented(line: Seq<char>) -> bool {
    line.len() > 1 && is_white_space(line[0]) ==> is_one_byte(line[0]) && !is_white_space(line[1])
}

/// A release file that consists of a line with a date, and of nothing else.
pub open spec fn date_probe(line: Seq<char>) -> Seq<char> {
    line + "\nSHA256:"@
}

/// Whether a line with a date is refused.
pub open spec fn date_refused(line: Seq<char>) -> bool {
    release_sums(date_probe(line)) is None
}

/// Whether the head of a release file comes to an end: where a line names no
/// field of `keys`, the fields that were not met yet, at a date that is refused, or
/// once all fields were met. A line that opens a checksum section must not be indented
/// by more than one byte.
pub open spec fn header_ends(lines: Seq<Seq<char>>, keys: Seq<Seq<char>>) -> bool
    decreases lines.len(),
{
    if keys.len() == 0 {
        true
    } else if lines.len() == 0 {
        false
    } else {
        let k = key_of(lines[0], keys);
        if k < keys.len() {
            (keys[k as int] == "Date:"@ && date_refused(lines[0])) || header_ends(
                lines.drop_first(),
                keys.remove(k as int),
            )
        } else if lines[0].len() > 0 && lines[0].last() == ':' {
            barely_indented(lines[0])
        } else {
            true
        }
    }
}

/// Whether the head of the release file `text` comes to an end.
pub open spec fn header_complete(text: Seq<char>) -> bool {
    header_ends(lines(text), header_keys())
}

proof fn lemma_key_of_at(line: Seq<char>, keys: Seq<Seq<char>>, n: int)
    requires
        0 <= n <= keys.len(),
        forall|i: int| 0 <= i < n ==> !(#[trigger] keys[i]).is_prefix_of(line),
        n < keys.len() ==> keys[n].is_prefix_of(line),
    ensures
        key_of(line, keys) == n,
    decreases keys.len(),
{
    if n > 0 {
        assert(!keys[0].is_prefix_of(line));
        let rest = keys.drop_first();
        assert forall|i: int| 0 <= i < n - 1 implies !(#[trigger] rest[i]).is_prefix_of(line) by {
            assert(rest[i] == keys[i + 1]);
        }
        lemma_key_of_at(line, rest, n - 1);
    }
}

/// A line holds no line feed.
proof fn lemma_lines_hold_no_feed(s: Seq<char>, i: int)
    requires
        0 <= i < lines(s).len(),
    ensures
        forall|k: int| 0 <= k < lines(s)[i].len() ==> #[trigger] lines(s)[i][k] != '\n',
    decreases s.len(),
{
    let n = find(s, '\n');
    lemma_find(s, '\n');
    if n < s.len() {
        if i == 0 {
            let line = without_cr(s.take(n as int));
            assert forall|k: int| 0 <= k < line.len() implies #[trigger] line[k] != '\n' by {
                assert(line[k] == s[k]);
            }
        } else {
            let rest = s.skip(n as int + 1);
            lemma_lines_hold_no_feed(rest, i - 1);
            assert(lines(s)[i] == lines(rest)[i - 1]);
        }
    } else {
        assert(lines(s)[i] == s);
    }
}

/// The head of a release file that consists of a line with a date comes to an end.
proof fn lemma_date_probe(line: Seq<char>)
    requires
        "Date:"@.is_prefix_of(line),
        forall|k: int| 0 <= k < line.len() ==> #[trigger] line[k] != '\n',
    ensures
        header_complete(date_probe(line)),
{
    reveal_strlit("\nSHA256:");
    reveal_strlit("SHA256:");
    reveal_strlit("Architectures:");
    reveal_strlit("Codename:");
    reveal_strlit("Components:");
    reveal_strlit("Date:");
    reveal_strlit("Description:");
    reveal_strlit("Label:");
    reveal_strlit("Origin:");
    reveal_strlit("Suite:");
    reveal_strlit("Version:");
    let probe = date_probe(line);
    let n = line.len() as int;
    let section = "SHA256:"@;
    assert forall|k: int| 0 <= k < n implies #[trigger] probe[k] != '\n' by {
        assert(probe[k] == line[k]);
    }
    assert(probe[n] == '\n');
    lemma_find_at(probe, '\n', n);
    assert(probe.take(n) =~= line);
    assert(probe.skip(n + 1) =~= section);
    lemma_find_at(section, '\n', section.len() as int);
    let first = without_cr(line);
    assert(lines(section) == seq![section]);
    let all = lines(probe);
    assert(all == seq![first] + seq![section]);
    assert(all[0] == first);
    assert(all.drop_first() =~= seq![section]);
    assert forall|k: int| 0 <= k < 5 implies line[k] == #[trigger] "Date:"@[k] by {
        assert(line.subrange(0, 5)[k] == line[k]);
    }
    assert(line[4] == "Date:"@[4]);
    assert(first.len() >= 5);
    assert(first.subrange(0, 5) =~= "Date:"@);
    assert(line[0] == "Date:"@[0]);
    assert(first[0] == 'D');
    let keys = header_keys();
    assert forall|i: int| 0 <= i < 3 implies !(#[trigger] keys[i]).is_prefix_of(first) by {
        if keys[i].is_prefix_of(first) {
            assert(first.subrange(0, keys[i].len() as int)[0] == first[0]);
        }
    }
    lemma_key_of_at(first, keys, 3);
    let left = keys.remove(3);
    assert forall|i: int| 0 <= i < left.len() implies !(#[trigger] left[i]).is_prefix_of(
        section,
    ) by {
        let key = left[i];
        assert(key == keys[if i < 3 {
            i
        } else {
            i + 1
        }]);
        if key.is_prefix_of(section) {
            assert(section.subrange(0, key.len() as int)[0] == section[0]);
            assert(section.subrange(0, key.len() as int)[1] == section[1]);
        }
    }
    lemma_key_of_at(section, left, left.len() as int);
    let rest = seq![section];
    assert(rest[0] == section);
    assert(header_ends(rest, left));
}

/// Tests whether a line with a date is refused.
fn refuses_date(line: &str) -> (r: bool)
    requires
        "Date:"@.is_prefix_of(line@),
        forall|k: int| 0 <= k < line@.len() ==> #[trigger] line@[k] != '\n',
    ensures
        r == date_refused(line@),
{
    let probe = join2(line, "\nSHA256:");
    proof {
        lemma_date_probe(line@);
    }
    parse_release(probe.as_str()).is_err()
}

/// Tests whether the head of the release file `text` comes to an end.
pub fn is_header_complete(text: &str) -> (r: bool)
    ensures
        r == header_complete(text@),
{
    let all = split_lines(text);
    let mut keys: Vec<&str> = vec![
        "Architectures:",
        "Codename:",
        "Components:",
        "Date:",
        "Description:",
        "Label:",
        "Origin:",
        "Suite:",
        "Version:",
    ];
    let mut i: usize = 0;
    proof {
        assert(keys@.map_values(|k: &str| k@) =~= header_keys());
        assert(lines(text@).skip(0) == lines(text@));
    }
    while i < all.len()
        invariant
            texts(all@) == lines(text@),
            i <= all@.len(),
            header_complete(text@) == header_ends(
                lines(text@).skip(i as int),
                keys@.map_values(|k: &str| k@),
            ),
        decreases all@.len() - i,
    {
        let ghost rest = lines(text@).skip(i as int);
        let ghost names = keys@.map_values(|k: &str| k@);
        if keys.len() == 0 {
            return true;
        }
        let line = all[i].as_str();
        assert(rest[0] == line@);
        let mut k: usize = 0;
        while k < keys.len() && !starts_with(line, keys[k])
            invariant
                k <= keys@.len(),
                names == keys@.map_values(|k: &str| k@),
                forall|j: int| 0 <= j < k ==> !(#[trigger] names[j]).is_prefix_of(line@),
            decreases keys@.len() - k,
        {
            k = k + 1;
        }
        proof {
            lemma_key_of_at(line@, names, k as int);
        }
        if k == keys.len() {
            let cs = chars_of(line);
            if cs.len() == 0 || cs[cs.len() - 1] != ':' {
                return true;
            }
            return cs.len() <= 1 || !white_space(cs[0]) || (cs[0] <= '\u{7f}' && !white_space(
                cs[1],
            ));
        }
        if same(keys[k], "Date:") {
            proof {
                lemma_lines_hold_no_feed(text@, i as int);
                assert(lines(text@)[i as int] == line@);
                assert(names[k as int] == keys@[k as int]@);
            }
            if refuses_date(line) {
                return true;
            }
        }
        let _ = keys.remove(k);
        proof {
            assert(keys@.map_values(|k: &str| k@) =~= names.remove(k as int));
            assert(rest.drop_first() == lines(text@).skip(i + 1));
        }
        i = i + 1;
    }
    assert(lines(text@).skip(i as int).len() == 0);
    keys.len() == 0
}

/// The files that a release file lists, as `apt_release_file::DistRelease` parses
/// them out of its text; `None` where it refuses the text.
pub uninterp spec fn release_sums(text: Seq<char>) -> Option<Seq<EntryComponentsView>>;

/// Parses a release file: `apt_release_file::DistRelease::from_str`. The lists and
/// whether there are any depend on the text alone. A line with a date is refused in one
/// text where it is refused in another. They come in the order of
/// their names, in which the parsed maps hold them.
#[verifier::external_body]
fn parse_release(text: &str) -> (r: Result<DistRelease, std::io::Error>)
    requires
        header_complete(text@),
    ensures
        r matches Ok(release) ==> release_sums(text@) == Some(release@),
        r is Err ==> release_sums(text@) is None,
{
    let entry = |e: Entry| ReleaseEntry { sum: e.sum, size: e.size, path: e.path };
    let items = |map: BTreeMap<String, Vec<Entry>>| map.into_iter().map(|(name, list)| ReleaseItem {
        name,
        entries: list.into_iter().map(entry).collect(),
    }).collect();
    let release = text.parse::<apt_release_file::DistRelease>()?;
    Ok(DistRelease { sums: release.sums.into_iter().map(|(method, lists)| EntryComponents {
        method,
        base: items(lists.base),
        components: lists.components.into_iter().map(|(name, map)| ReleaseComponent { name, items: items(map) }).collect(),
    }).collect() })
}

/// Whether `why` is the error with which the text `text` is refused as a release file.
pub closed spec fn refuses_release(text: Seq<char>, why: std::io::Error) -> bool {
    exists|file: &str| file@ == text && #[trigger] call_ensures(parse_release, (file,), Err(why))
}

/// Reads a release file, or says why it is refused.
pub(crate) fn read_release(text: &str) -> (r: Result<DistRelease, std::io::Error>)
    requires
        header_complete(text@),
    ensures
        match r {
            Ok(release) => release_sums(text@) == Some(release@),
            Err(why) => release_sums(text@) is None && refuses_release(text@, why),
        },
{
    parse_release(text)
}

/// A line feed ends a line, together with a carriage return before it; what follows it is the
/// other lines.
pub proof fn line_feed_ends_a_line(line: Seq<char>, rest: Seq<char>)
    requires
        forall|i: int| 0 <= i < line.len() ==> #[trigger] line[i] != '\n',
    ensures
        lines(line.push('\n') + rest) == seq![
            if line.len() > 0 && line[line.len() - 1] == '\r' {
                line.take(line.len() - 1)
            } else {
                line
            },
        ] + lines(rest),
{
    let s = line.push('\n') + rest;
    let n = line.len() as int;
    assert forall|i: int| 0 <= i < n implies #[trigger] s[i] != '\n' by {
        assert(s[i] == line[i]);
    }
    assert(s[n] == '\n');
    lemma_find_at(s, '\n', n);
    assert(s.take(n) =~= line);
    assert(s.skip(n + 1) =~= rest);
    if n > 0 {
        assert(line.drop_last() =~= line.take(n - 1));
    }
}

/// A text without a line feed is a single line, and an empty text has none.
pub proof fn text_without_line_feed_is_a_line(s: Seq<char>)
    requires
        forall|i: int| 0 <= i < s.len() ==> #[trigger] s[i] != '\n',
    ensures
        lines(s) == if s.len() == 0 {
            Seq::<Seq<char>>::empty()
        } else {
            seq![s]
        },
{
    lemma_find_at(s, '\n', s.len() as int);
}

proof fn lemma_key_of_bound(line: Seq<char>, keys: Seq<Seq<char>>)
    ensures
        key_of(line, keys) <= keys.len(),
        forall|i: int| 0 <= i < key_of(line, keys) ==> !(#[trigger] keys[i]).is_prefix_of(line),
        key_of(line, keys) < keys.len() ==> keys[key_of(line, keys) as int].is_prefix_of(line),
    decreases keys.len(),
{
    if keys.len() > 0 && !keys[0].is_prefix_of(line) {
        let rest = keys.drop_first();
        lemma_key_of_bound(line, rest);
        assert forall|i: int| 0 <= i < key_of(line, keys) implies !(
        #[trigger] keys[i]).is_prefix_of(line) by {
            if i > 0 {
                assert(keys[i] == rest[i - 1]);
            }
        }
        if key_of(line, keys) < keys.len() {
            assert(keys[key_of(line, keys) as int] == rest[key_of(line, rest) as int]);
        }
    }
}

proof fn lemma_header_ends(all: Seq<Seq<char>>, keys: Seq<Seq<char>>, n: int)
    requires
        0 <= n <= all.len(),
        forall|j: int|
            0 <= j < n ==> (#[trigger] all[j]).len() == 0 || !is_white_space(all[j][0]),
        n >= keys.len() || (n > 0 && forall|k: int|
            0 <= k < keys.len() ==> !(#[trigger] keys[k]).is_prefix_of(all[n - 1])),
    ensures
        header_ends(all, keys),
    decreases n,
{
    if keys.len() > 0 {
        assert(all[0].len() == 0 || !is_white_space(all[0][0]));
        let k = key_of(all[0], keys);
        lemma_key_of_bound(all[0], keys);
        if k < keys.len() {
            let rest = all.drop_first();
            let left = keys.remove(k as int);
            assert forall|j: int| 0 <= j < n - 1 implies (#[trigger] rest[j]).len() == 0
                || !is_white_space(rest[j][0]) by {
                assert(rest[j] == all[j + 1]);
            }
            if n < keys.len() {
                if n == 1 {
                    assert(!keys[k as int].is_prefix_of(all[0]));
                }
                assert(rest[n - 2] == all[n - 1]);
                assert forall|i: int| 0 <= i < left.len() implies !(
                #[trigger] left[i]).is_prefix_of(rest[n - 2]) by {
                    assert(left[i] == keys[if i < k {
                        i
                    } else {
                        i + 1
                    }]);
                }
            }
            lemma_header_ends(rest, left, n - 1);
        }
    }
}

/// The head of a release file comes to an end at the first line that starts with none of its
/// fields, where the lines up to that are not indented, and within nine lines in any case.
pub proof fn head_ends_where_no_field_stands(text: Seq<char>, n: int)
    requires
        0 < n <= lines(text).len(),
        forall|j: int|
            0 <= j < n ==> (#[trigger] lines(text)[j]).len() == 0 || !is_white_space(
                lines(text)[j][0],
            ),
        n >= 9 || ({
            let line = lines(text)[n - 1];
            &&& !"Architectures:"@.is_prefix_of(line)
            &&& !"Codename:"@.is_prefix_of(line)
            &&& !"Components:"@.is_prefix_of(line)
            &&& !"Date:"@.is_prefix_of(line)
            &&& !"Description:"@.is_prefix_of(line)
            &&& !"Label:"@.is_prefix_of(line)
            &&& !"Origin:"@.is_prefix_of(line)
            &&& !"Suite:"@.is_prefix_of(line)
            &&& !"Version:"@.is_prefix_of(line)
        }),
    ensures
        header_complete(text),
{
    lemma_header_ends(lines(text), header_keys(), n);
}

/// A head that starts with an indented line ends there, but for the line of a checksum section
/// that is indented by more than one byte. At a date that is refused it ends as well.
pub proof fn head_ends_at_its_first_line(text: Seq<char>)
    requires
        lines(text).len() > 0,
    ensures
        ({
            let line = lines(text)[0];
            &&& line.len() > 0 && is_white_space(line[0]) ==> (header_complete(text) <==> {
                ||| line.len() == 1
                ||| line[line.len() - 1] != ':'
                ||| line[0] as int <= 127 && !is_white_space(line[1])
            })
            &&& "Date:"@.is_prefix_of(line) && release_sums(line + "\nSHA256:"@) is None
                ==> header_complete(text)
        }),
{
    reveal_strlit("Architectures:");
    reveal_strlit("Codename:");
    reveal_strlit("Components:");
    reveal_strlit("Date:");
    reveal_strlit("Description:");
    reveal_strlit("Label:");
    reveal_strlit("Origin:");
    reveal_strlit("Suite:");
    reveal_strlit("Version:");
    let line = lines(text)[0];
    let keys = header_keys();
    assert(keys.len() == 9);
    if line.len() > 0 && is_white_space(line[0]) {
        assert forall|i: int| 0 <= i < 9 implies !(#[trigger] keys[i]).is_prefix_of(line) by {
            if keys[i].is_prefix_of(line) {
                assert(line.subrange(0, keys[i].len() as int)[0] == line[0]);
                assert(!is_white_space(keys[i][0]));
            }
        }
        lemma_key_of_at(line, keys, 9);
    }
    if "Date:"@.is_prefix_of(line) {
        assert(line.subrange(0, 5)[0] == line[0]);
        assert forall|i: int| 0 <= i < 3 implies !(#[trigger] keys[i]).is_prefix_of(line) by {
            if keys[i].is_prefix_of(line) {
                assert(line.subrange(0, keys[i].len() as int)[0] == line[0]);
            }
        }
        lemma_key_of_at(line, keys, 3);
    }
}

/// Whether the line starts with one of `keys`.
pub open spec fn has_key(line: Seq<char>, keys: Seq<Seq<char>>) -> bool {
    exists|k: int| 0 <= k < keys.len() && (#[trigger] keys[k]).is_prefix_of(line)
}

/// The kind of a path can be told where all of its characters take one byte each and it does not
/// end with `Translation`, or where it names no directory.
pub proof fn ordinary_paths_can_be_told(path: Seq<char>)
    requires
        ({
            ||| forall|i: int| 0 <= i < path.len() ==> #[trigger] path[i] != '/'
            ||| !"Translation"@.is_suffix_of(path) && forall|i: int|
                0 <= i < path.len() ==> #[trigger] path[i] as int <= 127
        }),
    ensures
        variant_defined(path),
    decreases path.len(),
{
    let n = find(path, '/') as int;
    lemma_find(path, '/');
    if n < path.len() {
        assert(path[n] == '/');
        let file = path.skip(n + 1);
        assert forall|i: int| 0 <= i < file.len() implies #[trigger] file[i] as int <= 127 by {
            assert(file[i] == path[i + n + 1]);
        }
        if "Translation"@.is_suffix_of(file) {
            let len = "Translation"@.len() as int;
            assert(path.subrange(path.len() - len, path.len() as int) =~= file.subrange(
                file.len() - len,
                file.len() as int,
            ));
        }
        if file == "Translation"@ {
            assert(file.subrange(0, file.len() as int) =~= file);
            assert("Translation"@.is_suffix_of(file));
        }
        ordinary_paths_can_be_told(file);
    }
}

proof fn lemma_first_directory(dir: Seq<char>, file: Seq<char>)
    requires
        forall|i: int| 0 <= i < dir.len() ==> #[trigger] dir[i] != '/',
    ensures
        ({
            let path = dir + "/"@ + file;
            &&& find(path, '/') == dir.len()
            &&& path.len() > dir.len()
            &&& path.take(dir.len() as int) == dir
            &&& path.skip(dir.len() as int + 1) == file
        }),
{
    reveal_strlit("/");
    let path = dir + "/"@ + file;
    assert forall|i: int| 0 <= i < dir.len() implies #[trigger] path[i] != '/' by {
        assert(path[i] == dir[i]);
    }
    assert(path[dir.len() as int] == '/');
    lemma_find_at(path, '/', dir.len() as int);
    assert(path.take(dir.len() as int) =~= dir);
    assert(path.skip(dir.len() as int + 1) =~= file);
}

/// The kind of a path is told by its directories, one after the other, up to the first that has a
/// meaning. In a directory of sources, translations or packages it cannot be told where a
/// character of more than one byte follows on the name of the index; nor can a `Translation`
/// without a locale.
pub proof fn paths_are_told_by_their_directories(dir: Seq<char>, file: Seq<char>)
    requires
        forall|i: int| 0 <= i < dir.len() ==> #[trigger] dir[i] != '/',
    ensures
        dir == "source"@ ==> (variant_defined(dir + "/"@ + file) <==> !("Sources"@.is_prefix_of(
            file,
        ) && file.len() > 7 && file[7] as int > 127)),
        dir == "i18n"@ ==> (variant_defined(dir + "/"@ + file) <==> file != "Translation"@ && !(
        "Translation"@.is_prefix_of(file) && file.len() > 11 && file[11] as int > 127)),
        dir == "debian-installer"@ || dir == "dep11"@ ==> variant_defined(dir + "/"@ + file),
        !"binary-"@.is_prefix_of(dir) && dir != "source"@ && dir != "i18n"@ && dir
            != "debian-installer"@ && dir != "dep11"@ ==> variant_defined(dir + "/"@ + file)
            == variant_defined(file),
{
    reveal_strlit("Sources");
    reveal_strlit("Translation");
    reveal_strlit("source");
    reveal_strlit("i18n");
    reveal_strlit("debian-installer");
    reveal_strlit("dep11");
    reveal_strlit("binary-");
    lemma_first_directory(dir, file);
    if dir == "source"@ || dir == "i18n"@ || dir == "debian-installer"@ || dir == "dep11"@ {
        if "binary-"@.is_prefix_of(dir) {
            assert(dir.subrange(0, 7)[0] == dir[0]);
        }
        assert("source"@[0] != "i18n"@[0] && "source"@[0] != "dep11"@[0]);
        assert("i18n"@[0] != "dep11"@[0]);
        assert("source"@[0] != "debian-installer"@[0] && "i18n"@[0] != "debian-installer"@[0]);
    }
}

/// The kind of a path below the directory of an architecture can be told where the architecture is
/// not known, or where no character of more than one byte follows on `Packages`.
pub proof fn packages_are_told_by_their_architecture(arch: Seq<char>, file: Seq<char>)
    requires
        forall|i: int| 0 <= i < arch.len() ==> #[trigger] arch[i] != '/',
    ensures
        variant_defined("binary-"@ + arch + "/"@ + file) <==> {
            ||| !(arch == "any"@ || arch == "all"@ || arch == "amd64"@ || arch == "armel"@ || arch
                == "armhf"@ || arch == "arm64"@ || arch == "i386"@ || arch == "mips"@ || arch
                == "mipsel"@ || arch == "mips64"@ || arch == "mips64el"@ || arch == "ppc64el"@
                || arch == "s390x"@ || arch == "linux-any"@ || arch == "x32"@)
            ||| !("Packages"@.is_prefix_of(file) && file.len() > 8 && file[8] as int > 127)
        },
{
    reveal_strlit("binary-");
    reveal_strlit("Packages");
    let dir = "binary-"@ + arch;
    assert forall|i: int| 0 <= i < dir.len() implies #[trigger] dir[i] != '/' by {
        if i >= 7 {
            assert(dir[i] == arch[i - 7]);
        }
    }
    lemma_first_directory(dir, file);
    assert(dir.subrange(0, 7) =~= "binary-"@);
    assert(dir.skip(7) =~= arch);
}

/// A parsed release file is seen as what it holds: methods, components, items and entries, with
/// their names, checksums, sizes and paths.
pub proof fn releases_are_seen_in_full(
    release: DistRelease,
    lists: EntryComponents,
    component: ReleaseComponent,
    item: ReleaseItem,
    entry: ReleaseEntry,
    i: int,
)
    ensures
        release@.len() == release.sums@.len(),
        0 <= i < release.sums@.len() ==> release@[i] == release.sums@[i]@,
        lists@.method == lists.method@,
        lists@.base.len() == lists.base@.len(),
        0 <= i < lists.base@.len() ==> lists@.base[i] == lists.base@[i]@,
        lists@.components.len() == lists.components@.len(),
        0 <= i < lists.components@.len() ==> lists@.components[i] == lists.components@[i]@,
        component@.name == component.name@,
        component@.items.len() == component.items@.len(),
        0 <= i < component.items@.len() ==> component@.items[i] == component.items@[i]@,
        item@.name == item.name@,
        item@.entries.len() == item.entries@.len(),
        0 <= i < item.entries@.len() ==> item@.entries[i] == item.entries@[i]@,
        entry@.sum == entry.sum@,
        entry@.size == entry.size,
        entry@.path == entry.path@,
{
}

proof fn lemma_fields_are_passed(
    fields: Seq<Seq<char>>,
    rest: Seq<Seq<char>>,
    keys: Seq<Seq<char>>,
) -> (left: Seq<Seq<char>>)
    requires
        fields.len() <= keys.len(),
        forall|i: int| 0 <= i < fields.len() ==> has_key(#[trigger] fields[i], keys),
        forall|i: int, j: int, k: int|
            0 <= i < j < fields.len() && 0 <= k < keys.len() && #[trigger] keys[k].is_prefix_of(
                fields[i],
            ) ==> !#[trigger] keys[k].is_prefix_of(fields[j]),
        forall|line: Seq<char>, a: int, b: int|
            0 <= a < b < keys.len() && #[trigger] keys[a].is_prefix_of(line)
                ==> !#[trigger] keys[b].is_prefix_of(line),
        forall|i: int|
            0 <= i < fields.len() && "Date:"@.is_prefix_of(#[trigger] fields[i]) ==> !date_refused(
                fields[i],
            ),
    ensures
        header_ends(fields + rest, keys) == header_ends(rest, left),
        left.len() == keys.len() - fields.len(),
        forall|key: Seq<char>| #[trigger]
            left.contains(key) ==> keys.contains(key) && forall|i: int|
                0 <= i < fields.len() ==> !key.is_prefix_of(#[trigger] fields[i]),
        forall|key: Seq<char>|
            keys.contains(key) && (forall|i: int|
                0 <= i < fields.len() ==> !key.is_prefix_of(#[trigger] fields[i]))
                ==> #[trigger] left.contains(key),
    decreases fields.len(),
{
    let all = fields + rest;
    if fields.len() == 0 {
        assert(all =~= rest);
        keys
    } else {
        assert(all[0] == fields[0]);
        let k = key_of(fields[0], keys) as int;
        lemma_key_of_bound(fields[0], keys);
        assert(has_key(fields[0], keys));
        let some = choose|i: int|
            0 <= i < keys.len() && (#[trigger] keys[i]).is_prefix_of(fields[0]);
        assert(k < keys.len());
        let later = fields.drop_first();
        let next = keys.remove(k);
        assert(all.drop_first() =~= later + rest);
        assert forall|i: int| 0 <= i < later.len() implies has_key(#[trigger] later[i], next) by {
            assert(later[i] == fields[i + 1]);
            assert(has_key(fields[i + 1], keys));
            let m = choose|m: int|
                0 <= m < keys.len() && (#[trigger] keys[m]).is_prefix_of(fields[i + 1]);
            assert(m != k);
            assert(next[if m < k {
                m
            } else {
                m - 1
            }] == keys[m]);
        }
        assert forall|i: int, j: int, m: int|
            0 <= i < j < later.len() && 0 <= m < next.len() && #[trigger] next[m].is_prefix_of(
                later[i],
            ) implies !#[trigger] next[m].is_prefix_of(later[j]) by {
            let o = if m < k {
                m
            } else {
                m + 1
            };
            assert(next[m] == keys[o]);
            assert(keys[o].is_prefix_of(fields[i + 1]));
            assert(later[j] == fields[j + 1]);
        }
        assert forall|i: int|
            0 <= i < later.len() && "Date:"@.is_prefix_of(#[trigger] later[i]) implies !date_refused(
            later[i],
        ) by {
            assert(later[i] == fields[i + 1]);
        }
        assert(!(keys[k] == "Date:"@ && date_refused(fields[0])));
        assert forall|line: Seq<char>, a: int, b: int|
            0 <= a < b < next.len() && #[trigger] next[a].is_prefix_of(
                line,
            ) implies !#[trigger] next[b].is_prefix_of(line) by {
            let c = if a < k {
                a
            } else {
                a + 1
            };
            let d = if b < k {
                b
            } else {
                b + 1
            };
            assert(next[a] == keys[c] && next[b] == keys[d]);
            assert(keys[c].is_prefix_of(line));
        }
        let left = lemma_fields_are_passed(later, rest, next);
        assert forall|key: Seq<char>| #[trigger] left.contains(key) implies keys.contains(key)
            && forall|i: int|
            0 <= i < fields.len() ==> !key.is_prefix_of(#[trigger] fields[i]) by {
            let m = next.index_of(key);
            let o = if m < k {
                m
            } else {
                m + 1
            };
            assert(keys[o] == key);
            assert forall|i: int| 0 <= i < fields.len() implies !key.is_prefix_of(
                #[trigger] fields[i],
            ) by {
                if i > 0 {
                    assert(later[i - 1] == fields[i]);
                } else {
                    assert(keys[k].is_prefix_of(fields[0]));
                    assert(!keys[o].is_prefix_of(fields[0]));
                }
            }
        }
        assert forall|key: Seq<char>|
            keys.contains(key) && (forall|i: int|
                0 <= i < fields.len() ==> !key.is_prefix_of(
                    #[trigger] fields[i],
                )) implies #[trigger] left.contains(key) by {
            let o = keys.index_of(key);
            assert(!key.is_prefix_of(fields[0]));
            assert(o != k);
            let m = if o < k {
                o
            } else {
                o - 1
            };
            assert(next[m] == key);
            assert forall|i: int| 0 <= i < later.len() implies !key.is_prefix_of(
                #[trigger] later[i],
            ) by {
                assert(later[i] == fields[i + 1]);
            }
        }
        left
    }
}

proof fn lemma_keys_differ(line: Seq<char>, a: int, b: int)
    requires
        0 <= a < b < 9,
        header_keys()[a].is_prefix_of(line),
    ensures
        !header_keys()[b].is_prefix_of(line),
{
    reveal_strlit("Architectures:");
    reveal_strlit("Codename:");
    reveal_strlit("Components:");
    reveal_strlit("Date:");
    reveal_strlit("Description:");
    reveal_strlit("Label:");
    reveal_strlit("Origin:");
    reveal_strlit("Suite:");
    reveal_strlit("Version:");
    let keys = header_keys();
    if keys[b].is_prefix_of(line) {
        let m = keys[a].len() as int;
        let n = keys[b].len() as int;
        assert(keys[a] == line.subrange(0, m) && keys[b] == line.subrange(0, n));
        assert(m >= 5 && n >= 5);
        assert(line.subrange(0, m)[0] == line[0] && line.subrange(0, n)[0] == line[0]);
        assert(line.subrange(0, m)[1] == line[1] && line.subrange(0, n)[1] == line[1]);
        assert(line.subrange(0, m)[2] == line[2] && line.subrange(0, n)[2] == line[2]);
        assert(keys[a][0] == keys[b][0] && keys[a][1] == keys[b][1] && keys[a][2] == keys[b][2]);
        assert(false);
    }
}

/// Behind the fields at its head, each of which stands there once and of which no date is refused,
/// a release file goes on. The head comes to an end with the line behind them, but for that of a
/// checksum section that is indented by more than one byte; with the ninth field; or with a date
/// that is refused. It does not where nothing follows on fewer fields.
pub proof fn head_ends_behind_its_fields(
    text: Seq<char>,
    fields: Seq<Seq<char>>,
    rest: Seq<Seq<char>>,
)
    requires
        lines(text) == fields + rest,
        fields.len() <= 9,
        forall|i: int| 0 <= i < fields.len() ==> has_key(
            #[trigger] fields[i],
            seq![
                "Architectures:"@,
                "Codename:"@,
                "Components:"@,
                "Date:"@,
                "Description:"@,
                "Label:"@,
                "Origin:"@,
                "Suite:"@,
                "Version:"@,
            ],
        ),
        forall|i: int, j: int, key: Seq<char>|
            0 <= i < j < fields.len() && key.len() > 0 && key[key.len() - 1] == ':'
                && #[trigger] key.is_prefix_of(fields[i]) ==> !#[trigger] key.is_prefix_of(fields[j]),
        forall|i: int|
            0 <= i < fields.len() && "Date:"@.is_prefix_of(#[trigger] fields[i]) ==> release_sums(
                fields[i] + "\nSHA256:"@,
            ) is Some,
    ensures
        fields.len() == 9 ==> header_complete(text),
        fields.len() < 9 && rest.len() == 0 ==> !header_complete(text),
        fields.len() < 9 && rest.len() > 0 && (forall|k: int|
            0 <= k < 9 && (#[trigger] header_keys()[k]).is_prefix_of(rest[0]) ==> exists|i: int|
                0 <= i < fields.len() && header_keys()[k].is_prefix_of(#[trigger] fields[i])) ==> (
        header_complete(text) <==> {
            ||| rest[0].len() <= 1
            ||| rest[0][rest[0].len() - 1] != ':'
            ||| !is_white_space(rest[0][0])
            ||| rest[0][0] as int <= 127 && !is_white_space(rest[0][1])
        }),
        fields.len() < 9 && rest.len() > 0 && "Date:"@.is_prefix_of(rest[0]) && (forall|i: int|
            0 <= i < fields.len() ==> !"Date:"@.is_prefix_of(#[trigger] fields[i]))
            && release_sums(rest[0] + "\nSHA256:"@) is None ==> header_complete(text),
{
    reveal_strlit("Architectures:");
    reveal_strlit("Codename:");
    reveal_strlit("Components:");
    reveal_strlit("Date:");
    reveal_strlit("Description:");
    reveal_strlit("Label:");
    reveal_strlit("Origin:");
    reveal_strlit("Suite:");
    reveal_strlit("Version:");
    let keys = header_keys();
    assert(keys.len() == 9);
    assert forall|i: int, j: int, k: int|
        0 <= i < j < fields.len() && 0 <= k < keys.len() && #[trigger] keys[k].is_prefix_of(
            fields[i],
        ) implies !#[trigger] keys[k].is_prefix_of(fields[j]) by {
        let key = keys[k];
        assert(key.len() > 0 && key[key.len() - 1] == ':');
        assert(key.is_prefix_of(fields[i]));
    }
    assert forall|line: Seq<char>, a: int, b: int|
        0 <= a < b < keys.len() && #[trigger] keys[a].is_prefix_of(
            line,
        ) implies !#[trigger] keys[b].is_prefix_of(line) by {
        lemma_keys_differ(line, a, b);
    }
    let left = lemma_fields_are_passed(fields, rest, keys);
    if fields.len() < 9 && rest.len() > 0 {
        let line = rest[0];
        lemma_key_of_bound(line, left);
        let k = key_of(line, left) as int;
        if forall|k: int|
            0 <= k < 9 && (#[trigger] header_keys()[k]).is_prefix_of(line) ==> exists|i: int|
                0 <= i < fields.len() && header_keys()[k].is_prefix_of(#[trigger] fields[i]) {
            if k < left.len() {
                assert(left.contains(left[k]));
                let o = keys.index_of(left[k]);
                assert(header_keys()[o].is_prefix_of(line));
            }
        }
        if "Date:"@.is_prefix_of(line) && (forall|i: int|
            0 <= i < fields.len() ==> !"Date:"@.is_prefix_of(#[trigger] fields[i])) {
            assert(keys[3] == "Date:"@);
            assert(keys.contains("Date:"@));
            assert(left.contains("Date:"@));
            let m = left.index_of("Date:"@);
            assert(k <= m);
            assert(left.contains(left[k]));
            let o = keys.index_of(left[k]);
            assert(keys[o].is_prefix_of(line) && keys[3].is_prefix_of(line));
            if o < 3 {
                lemma_keys_differ(line, o, 3);
            } else if o > 3 {
                lemma_keys_differ(line, 3, o);
            }
        }
    }
}

/// The kind of a file is seen with its extension and its architecture, where it has them.
pub proof fn variants_are_seen_in_full(variant: EntryVariant)
    ensures
        variant_view(None) is None,
        variant_view(Some(variant)) == Some(variant@),
        match variant {
            EntryVariant::Packages(Some(ext), arch) => variant@ == EntryVariantView::Packages(
                Some(ext@),
                arch@,
            ),
            EntryVariant::Packages(None, arch) => variant@ == EntryVariantView::Packages(
                None,
                arch@,
            ),
            EntryVariant::BinaryRelease(arch) => variant@ == EntryVariantView::BinaryRelease(arch@),
            EntryVariant::Contents(arch) => variant@ == EntryVariantView::Contents(arch@),
            EntryVariant::Dep11Components(arch) => variant@ == EntryVariantView::Dep11Components(
                arch@,
            ),
            EntryVariant::Dep11Icons => variant@ == EntryVariantView::Dep11Icons,
            EntryVariant::Source => variant@ == EntryVariantView::Source,
            EntryVariant::I18n => variant@ == EntryVariantView::I18n,
        },
{
}

/// The error with which a text is refused is that of the outside parser on the same text.
proof fn refused_release_is_refused_by_the_parser(text: Seq<char>, why: std::io::Error)
    requires
        refuses_release(text, why),
    ensures
        exists|file: &str| file@ == text && #[trigger] call_ensures(
            parse_release,
            (file,),
            Err(why),
        ),
{
}

} // verus!
