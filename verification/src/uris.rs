//! The package URIs that `apt-get` prints.
use crate::command::{AptCommand, AptCommandView};
use crate::text::{
    chars_of, decimal, decimal_is_read_back, described, describes, is_digit, is_one_byte, is_unbroken, is_white_space,
    join2, lemma_decimal, lemma_first_word, parse_u64, same, split_words, starts_with, texts,
    u64_value, words,
};
use vstd::prelude::*;
use vstd::string::*;
use vstd::utf8::*;

verus! {

/// Why a package URI could not be had.
pub enum Error {
    /// The command failed.
    Command(std::io::Error),
    /// The line holds no word.
    UriNotFound(String),
    /// The first word is too short for a URI in quotes.
    UriInvalid(String),
    /// The line holds no name.
    NameNotFound(String),
    /// The line holds no size.
    SizeNotFound(String),
    /// The size is not a number.
    SizeParse(String),
    /// The line holds no checksum.
    Md5NotFound(String),
    /// The checksum is not marked as one.
    Md5Prefix(String),
}

#[verifier::ext_equal]
pub enum ErrorView {
    Command(std::io::Error),
    UriNotFound(Seq<char>),
    UriInvalid(Seq<char>),
    NameNotFound(Seq<char>),
    SizeNotFound(Seq<char>),
    SizeParse(Seq<char>),
    Md5NotFound(Seq<char>),
    Md5Prefix(Seq<char>),
}

impl View for Error {
    type V = ErrorView;

    open spec fn view(&self) -> ErrorView {
        match *self {
            Error::Command(why) => ErrorView::Command(why),
            Error::UriNotFound(s) => ErrorView::UriNotFound(s@),
            Error::UriInvalid(s) => ErrorView::UriInvalid(s@),
            Error::NameNotFound(s) => ErrorView::NameNotFound(s@),
            Error::SizeNotFound(s) => ErrorView::SizeNotFound(s@),
            Error::SizeParse(s) => ErrorView::SizeParse(s@),
            Error::Md5NotFound(s) => ErrorView::Md5NotFound(s@),
            Error::Md5Prefix(s) => ErrorView::Md5Prefix(s@),
        }
    }
}

impl ErrorView {
    /// Whether `text` is the error in words. A failed command is described by the words of
    /// its own error.
    pub open spec fn says(self, text: Seq<char>) -> bool {
        match self {
            ErrorView::Command(why) => describes(why, "apt command failed: "@, text),
            ErrorView::UriNotFound(s) => text == "uri not found in output: "@ + s,
            ErrorView::UriInvalid(s) => text == "invalid URI value: "@ + s,
            ErrorView::NameNotFound(s) => text == "name not found in output: "@ + s,
            ErrorView::SizeNotFound(s) => text == "size not found in output: "@ + s,
            ErrorView::SizeParse(s) => text
                == "size in output could not be parsed as an integer: "@ + s,
            ErrorView::Md5NotFound(s) => text == "md5sum not found in output: "@ + s,
            ErrorView::Md5Prefix(s) => text == "md5 prefix (MD5Sum:) not found in md5sum: "@ + s,
        }
    }
}

impl Error {
    /// Puts the error in words.
    pub fn message(&self) -> (r: String)
        ensures
            self@.says(r@),
    {
        match self {
            Error::Command(why) => described("apt command failed: ", why),
            Error::UriNotFound(s) => join2("uri not found in output: ", s.as_str()),
            Error::UriInvalid(s) => join2("invalid URI value: ", s.as_str()),
            Error::NameNotFound(s) => join2("name not found in output: ", s.as_str()),
            Error::SizeNotFound(s) => join2("size not found in output: ", s.as_str()),
            Error::SizeParse(s) => join2(
                "size in output could not be parsed as an integer: ",
                s.as_str(),
            ),
            Error::Md5NotFound(s) => join2("md5sum not found in output: ", s.as_str()),
            Error::Md5Prefix(s) => join2(
                "md5 prefix (MD5Sum:) not found in md5sum: ",
                s.as_str(),
            ),
        }
    }
}

/// A package that is in need of being updated.
#[derive(Debug)]
pub struct DebUri {
    pub uri: String,
    pub name: String,
    pub size: u64,
    pub md5sum: String,
}

#[verifier::ext_equal]
pub struct DebUriView {
    pub uri: Seq<char>,
    pub name: Seq<char>,
    pub size: u64,
    pub md5sum: Seq<char>,
}

impl View for DebUri {
    type V = DebUriView;

    open spec fn view(&self) -> DebUriView {
        DebUriView { uri: self.uri@, name: self.name@, size: self.size, md5sum: self.md5sum@ }
    }
}

impl Clone for DebUri {
    fn clone(&self) -> (r: Self)
        ensures
            r@ == self@,
    {
        DebUri {
            uri: self.uri.clone(),
            name: self.name.clone(),
            size: self.size,
            md5sum: self.md5sum.clone(),
        }
    }
}

/// Packages are equal where their URIs are.
impl PartialEq for DebUri {
    fn eq(&self, other: &Self) -> (r: bool) {
        same(self.uri.as_str(), other.uri.as_str())
    }
}

/// Feeds a text to a hasher: `std::hash::Hash::hash` of `str`. What the hasher makes of it
/// is left open.
#[verifier::external_body]
fn hash_text<H: std::hash::Hasher>(text: &str, state: &mut H) {
    std::hash::Hash::hash(text, state)
}

/// Whether `state` is a hasher that is fed the text `text`, once and with nothing else.
pub closed spec fn feeds<H: std::hash::Hasher>(text: Seq<char>, state: &mut H) -> bool {
    exists|t: &str| t@ == text && #[trigger] call_ensures(hash_text::<H>, (t, state), ())
}

/// Packages are hashed by their URIs, as they are compared.
impl std::hash::Hash for DebUri {
    fn hash<H: std::hash::Hasher>(&self, state: &mut H)
        ensures
            exists|fed: &mut H|
                {
                    &&& #[trigger] feeds(self.uri@, fed)
                    &&& *fed == *old(state)
                    &&& *final(fed) == *final(state)
                },
    {
        assert forall|t: &str, fed: &mut H| #[trigger]
            call_ensures(hash_text::<H>, (t, fed), ()) implies feeds(t@, fed) by {}
        hash_text(self.uri.as_str(), state);
    }
}

impl vstd::std_specs::cmp::PartialEqSpecImpl for DebUri {
    open spec fn obeys_eq_spec() -> bool {
        true
    }

    open spec fn eq_spec(&self, other: &Self) -> bool {
        self.uri@ == other.uri@
    }
}

/// Packages that are equal are fed to a hasher alike.
pub proof fn equal_packages_are_hashed_alike<H: std::hash::Hasher>(
    a: DebUri,
    b: DebUri,
    state: &mut H,
)
    requires
        vstd::std_specs::cmp::PartialEqSpec::eq_spec(&a, &b),
    ensures
        feeds(a.uri@, state) == feeds(b.uri@, state),
{
}

/// The package that a line of output describes, or why it describes none. Of the four
/// words that a line is made of, the first is a URI in single quotes and the last a
/// checksum behind `MD5Sum:`; what follows them is not looked at.
pub open spec fn deb_uri(line: Seq<char>) -> Result<DebUriView, ErrorView> {
    let found = words(line);
    if found.len() == 0 {
        Err(ErrorView::UriNotFound(line))
    } else if encode_utf8(found[0]).len() <= 3 {
        Err(ErrorView::UriInvalid(found[0]))
    } else if found.len() == 1 {
        Err(ErrorView::NameNotFound(line))
    } else if found.len() == 2 {
        Err(ErrorView::SizeNotFound(line))
    } else if u64_value(found[2]) is None {
        Err(ErrorView::SizeParse(found[2]))
    } else if found.len() == 3 {
        Err(ErrorView::Md5NotFound(line))
    } else if !"MD5Sum:"@.is_prefix_of(found[3]) {
        Err(ErrorView::Md5Prefix(found[3]))
    } else {
        Ok(
            DebUriView {
                uri: found[0].subrange(1, found[0].len() - 1),
                name: found[1],
                size: u64_value(found[2])->0,
                md5sum: found[3].skip("MD5Sum:"@.len() as int),
            },
        )
    }
}

/// Whether the quotes of the URI can be taken off: what stands in their place takes
/// one byte.
pub open spec fn is_quoted(line: Seq<char>) -> bool {
    words(line).len() > 0 && encode_utf8(words(line)[0]).len() > 3 ==> is_one_byte(
        words(line)[0][0],
    ) && is_one_byte(words(line)[0].last())
}

/// What a result holds.
pub open spec fn result_view(r: Result<DebUri, Error>) -> Result<DebUriView, ErrorView> {
    match r {
        Ok(package) => Ok(package@),
        Err(why) => Err(why@),
    }
}

impl DebUri {
    /// Tests whether the quotes of the URI can be taken off.
    pub fn can_parse(line: &str) -> (r: bool)
        ensures
            r == is_quoted(line@),
    {
        let found = split_words(line);
        if found.len() == 0 {
            return true;
        }
        assert(words(line@)[0] == found@[0]@);
        let quoted = found[0].as_str();
        if quoted.as_bytes().len() <= 3 {
            return true;
        }
        proof {
            crate::text::lemma_encoded_len_of_char(quoted@);
        }
        let cs = chars_of(quoted);
        cs[0] <= '\u{7f}' && cs[cs.len() - 1] <= '\u{7f}'
    }

    /// Parses a line of output.
    pub fn from_str(line: &str) -> (r: Result<Self, Error>)
        requires
            is_quoted(line@),
        ensures
            result_view(r) == deb_uri(line@),
    {
        let found = split_words(line);
        let ghost all = words(line@);
        if found.len() == 0 {
            return Err(Error::UriNotFound(line.to_owned()));
        }
        assert(all[0] == found@[0]@);
        let quoted = found[0].as_str();
        if quoted.as_bytes().len() <= 3 {
            return Err(Error::UriInvalid(quoted.to_owned()));
        }
        let len = quoted.unicode_len();
        proof {
            crate::text::lemma_encoded_len_of_char(quoted@);
        }
        let uri = quoted.substring_char(1, len - 1).to_owned();
        if found.len() == 1 {
            return Err(Error::NameNotFound(line.to_owned()));
        }
        if found.len() == 2 {
            return Err(Error::SizeNotFound(line.to_owned()));
        }
        assert(all[2] == found@[2]@);
        let size = match parse_u64(found[2].as_str()) {
            Some(size) => size,
            None => {
                return Err(Error::SizeParse(found[2].clone()));
            },
        };
        if found.len() == 3 {
            return Err(Error::Md5NotFound(line.to_owned()));
        }
        assert(all[3] == found@[3]@);
        let md5sum = found[3].as_str();
        if !starts_with(md5sum, "MD5Sum:") {
            return Err(Error::Md5Prefix(md5sum.to_owned()));
        }
        proof {
            reveal_strlit("MD5Sum:");
            assert(md5sum@.skip(7) == md5sum@.subrange(7, md5sum@.len() as int));
        }
        let md5sum = md5sum.substring_char(7, md5sum.unicode_len()).to_owned();
        assert(all[1] == found@[1]@);
        Ok(DebUri { uri, name: found[1].clone(), size, md5sum })
    }
}

/// The line in which `apt-get` describes a package.
pub open spec fn printed(package: DebUriView) -> Seq<char> {
    "'"@ + package.uri + "'"@ + (" "@ + package.name + (" "@ + decimal(package.size as nat) + (
    " MD5Sum:"@ + package.md5sum)))
}

/// A package is read back from the line in which `apt-get` describes it, whatever
/// follows that line. Its URI must take two bytes at least.
pub proof fn printed_package_is_read_back(package: DebUriView, tail: Seq<char>)
    requires
        is_unbroken(package.uri),
        is_unbroken(package.name),
        is_unbroken(package.md5sum),
        package.name.len() > 0,
        encode_utf8("'"@ + package.uri + "'"@).len() > 3,
        tail.len() > 0 ==> is_white_space(tail[0]),
    ensures
        is_quoted(printed(package) + tail),
        deb_uri(printed(package) + tail) == Ok::<DebUriView, ErrorView>(package),
{
    reveal_strlit("'");
    reveal_strlit(" ");
    reveal_strlit("MD5Sum:");
    reveal_strlit(" MD5Sum:");
    let quoted = "'"@ + package.uri + "'"@;
    let size = decimal(package.size as nat);
    let sum = "MD5Sum:"@ + package.md5sum;
    let after_size = " "@ + (sum + tail);
    let after_name = " "@ + (size + after_size);
    let after_uri = " "@ + (package.name + after_name);
    let line = printed(package) + tail;
    assert(" MD5Sum:"@ =~= " "@ + "MD5Sum:"@);
    assert(line =~= quoted + after_uri);
    lemma_decimal(package.size as nat);
    decimal_is_read_back(package.size);
    assert(is_unbroken(quoted)) by {
        assert forall|i: int| 0 <= i < quoted.len() implies !is_white_space(
            #[trigger] quoted[i],
        ) by {
            if 1 <= i < quoted.len() - 1 {
                assert(quoted[i] == package.uri[i - 1]);
            }
        }
    }
    assert(is_unbroken(size)) by {
        assert forall|i: int| 0 <= i < size.len() implies !is_white_space(#[trigger] size[i]) by {
            assert(is_digit(size[i]));
        }
    }
    assert(is_unbroken(sum)) by {
        assert forall|i: int| 0 <= i < sum.len() implies !is_white_space(#[trigger] sum[i]) by {
            if i >= 7 {
                assert(sum[i] == package.md5sum[i - 7]);
            }
        }
    }
    lemma_first_word(quoted, after_uri);
    lemma_first_word(package.name, after_name);
    lemma_first_word(size, after_size);
    lemma_first_word(sum, tail);
    assert(after_uri.drop_first() =~= package.name + after_name);
    assert(after_name.drop_first() =~= size + after_size);
    assert(after_size.drop_first() =~= sum + tail);
    let found = words(line);
    assert(found =~= seq![quoted, package.name, size, sum] + words(tail));
    assert(found[0] == quoted && found[1] == package.name && found[2] == size && found[3] == sum);
    assert(quoted.subrange(1, quoted.len() - 1) =~= package.uri);
    assert(sum.subrange(0, 7) =~= "MD5Sum:"@);
    assert(sum.skip(7) =~= package.md5sum);
}

/// What a line of output comes to.
pub enum LineStep {
    /// The output has ended.
    End,
    /// The line is about no package.
    Skip,
    /// The line is about this package.
    Package(DebUri),
    /// The line should be about a package, and is not.
    Invalid(Error),
}

/// Whether a line of output is about a package: it starts with a single quote.
pub open spec fn is_package_line(line: Seq<char>) -> bool {
    line.len() > 0 && line[0] == '\''
}

/// Whether a line of output, if it is about a package, can be parsed.
pub open spec fn is_line(line: Seq<char>) -> bool {
    is_package_line(line) ==> is_quoted(line)
}

/// Tests whether a line of output, if it is about a package, can be parsed.
pub fn check_line(line: &str) -> (r: bool)
    ensures
        r == is_line(line@),
{
    if !starts_with(line, "'") {
        proof {
            reveal_strlit("'");
            if is_package_line(line@) {
                assert(line@.subrange(0, 1) =~= "'"@);
            }
        }
        return true;
    }
    proof {
        reveal_strlit("'");
        assert(line@.subrange(0, 1)[0] == '\'');
    }
    DebUri::can_parse(line)
}

/// Whether `step` is what a line of output, as it was read, comes to. At the end of
/// the output, an empty line is read.
pub open spec fn is_step(line: Seq<char>, step: LineStep) -> bool {
    if line.len() == 0 {
        step is End
    } else if !is_package_line(line) {
        step is Skip
    } else {
        match deb_uri(line) {
            Ok(package) => step matches LineStep::Package(p) && p@ == package,
            Err(why) => step matches LineStep::Invalid(e) && e@ == why,
        }
    }
}

/// Says what a line of output, as it was read, comes to.
pub fn read_line(line: &str) -> (step: LineStep)
    requires
        is_line(line@),
    ensures
        is_step(line@, step),
{
    if line.is_empty() {
        return LineStep::End;
    }
    if !starts_with(line, "'") {
        proof {
            reveal_strlit("'");
            if is_package_line(line@) {
                assert(line@.subrange(0, 1) =~= "'"@);
            }
        }
        return LineStep::Skip;
    }
    proof {
        reveal_strlit("'");
        assert(line@.subrange(0, 1)[0] == '\'');
    }
    match DebUri::from_str(line) {
        Ok(package) => LineStep::Package(package),
        Err(why) => LineStep::Invalid(why),
    }
}

/// The packages that were found in the output, and what cut the search short, if
/// anything did.
#[verifier::ext_equal]
pub struct UriOutputView {
    pub packages: Seq<DebUriView>,
    pub failure: Option<ErrorView>,
}

/// What the lines of output come to: the packages that they are about, up to the end
/// of the output or to the first line that should be about a package and is not.
pub open spec fn uri_output(lines: Seq<Seq<char>>) -> UriOutputView
    decreases lines.len(),
{
    if lines.len() == 0 || lines[0].len() == 0 {
        UriOutputView { packages: seq![], failure: None }
    } else if !is_package_line(lines[0]) {
        uri_output(lines.drop_first())
    } else {
        match deb_uri(lines[0]) {
            Ok(package) => {
                let rest = uri_output(lines.drop_first());
                UriOutputView { packages: seq![package] + rest.packages, failure: rest.failure }
            },
            Err(why) => UriOutputView { packages: seq![], failure: Some(why) },
        }
    }
}

/// Whether the lines that are looked at, up to the end of the output or to the first
/// line that should be about a package and is not, can be parsed.
pub open spec fn can_be_read(lines: Seq<Seq<char>>) -> bool
    decreases lines.len(),
{
    if lines.len() == 0 || lines[0].len() == 0 {
        true
    } else {
        &&& is_line(lines[0])
        &&& is_package_line(lines[0]) && deb_uri(lines[0]) is Err || can_be_read(
            lines.drop_first(),
        )
    }
}

/// Lines can be read if each of them can be parsed.
pub proof fn lines_can_be_read(lines: Seq<Seq<char>>)
    requires
        forall|i: int| 0 <= i < lines.len() ==> is_line(#[trigger] lines[i]),
    ensures
        can_be_read(lines),
    decreases lines.len(),
{
    if lines.len() > 0 {
        let rest = lines.drop_first();
        assert forall|i: int| 0 <= i < rest.len() implies is_line(#[trigger] rest[i]) by {
            assert(rest[i] == lines[i + 1]);
        }
        lines_can_be_read(rest);
        assert(is_line(lines[0]));
    }
}

/// The packages that `packages` describes.
pub open spec fn package_views(packages: Seq<DebUri>) -> Seq<DebUriView> {
    packages.map_values(|p: DebUri| p@)
}

/// The text of an optional error.
pub open spec fn error_view(e: Option<Error>) -> Option<ErrorView> {
    match e {
        Some(why) => Some(why@),
        None => None,
    }
}

/// Collects the packages which are in need of being updated from the lines of output.
/// They are collected also where a line cuts the search short.
pub fn update_uris(lines: &Vec<String>) -> (r: (Vec<DebUri>, Option<Error>))
    requires
        can_be_read(texts(lines@)),
    ensures
        uri_output(texts(lines@)) == (UriOutputView {
            packages: package_views(r.0@),
            failure: error_view(r.1),
        }),
{
    let ghost all = texts(lines@);
    let mut packages: Vec<DebUri> = Vec::new();
    let mut i: usize = 0;
    assert(all.skip(0) == all);
    assert(package_views(packages@) + uri_output(all).packages =~= uri_output(all).packages);
    while i < lines.len()
        invariant
            all == texts(lines@),
            i <= all.len(),
            can_be_read(all.skip(i as int)),
            uri_output(all).packages == package_views(packages@) + uri_output(
                all.skip(i as int),
            ).packages,
            uri_output(all).failure == uri_output(all.skip(i as int)).failure,
        decreases all.len() - i,
    {
        let ghost rest = all.skip(i as int);
        let ghost before = packages@;
        assert(rest[0] == lines@[i as int]@);
        assert(rest.drop_first() =~= all.skip(i + 1));
        match read_line(lines[i].as_str()) {
            LineStep::End => {
                assert(package_views(packages@) + Seq::<DebUriView>::empty() =~= package_views(
                    packages@,
                ));
                return (packages, None);
            },
            LineStep::Skip => {},
            LineStep::Package(package) => {
                packages.push(package);
                assert(package_views(packages@) =~= package_views(before).push(package@));
                assert(package_views(before) + (seq![package@] + uri_output(
                    all.skip(i + 1),
                ).packages) =~= package_views(packages@) + uri_output(all.skip(i + 1)).packages);
            },
            LineStep::Invalid(why) => {
                assert(package_views(packages@) + Seq::<DebUriView>::empty() =~= package_views(
                    packages@,
                ));
                return (packages, Some(why));
            },
        }
        i = i + 1;
    }
    assert(all.skip(i as int) =~= Seq::<Seq<char>>::empty());
    assert(package_views(packages@) + Seq::<DebUriView>::empty() =~= package_views(packages@));
    (packages, None)
}

/// Lines that are about no package change nothing, wherever they stand in the output.
pub proof fn other_lines_change_nothing(
    before: Seq<Seq<char>>,
    line: Seq<char>,
    after: Seq<Seq<char>>,
)
    requires
        line.len() > 0,
        !is_package_line(line),
    ensures
        uri_output(before + seq![line] + after) == uri_output(before + after),
        can_be_read(before + seq![line] + after) == can_be_read(before + after),
    decreases before.len(),
{
    let with = before + seq![line] + after;
    let without = before + after;
    if before.len() == 0 {
        assert(with[0] == line);
        assert(with.drop_first() =~= after);
        assert(without =~= after);
    } else {
        let rest = before.drop_first();
        assert(with[0] == before[0] && without[0] == before[0]);
        assert(with.drop_first() =~= rest + seq![line] + after);
        assert(without.drop_first() =~= rest + after);
        other_lines_change_nothing(rest, line, after);
    }
}

/// A line that should be about a package and is not cuts the search short: the packages
/// of the lines before it are found, and nothing that follows is looked at.
pub proof fn bad_line_cuts_search_short(
    before: Seq<Seq<char>>,
    line: Seq<char>,
    after: Seq<Seq<char>>,
)
    requires
        forall|i: int| 0 <= i < before.len() ==> (#[trigger] before[i]).len() > 0,
        uri_output(before).failure is None,
        is_package_line(line),
        deb_uri(line) is Err,
    ensures
        uri_output(before + seq![line] + after) == (UriOutputView {
            packages: uri_output(before).packages,
            failure: Some(deb_uri(line)->Err_0),
        }),
        can_be_read(before) && is_line(line) ==> can_be_read(before + seq![line] + after),
    decreases before.len(),
{
    let all = before + seq![line] + after;
    if before.len() == 0 {
        assert(all[0] == line);
    } else {
        let rest = before.drop_first();
        assert(all[0] == before[0]);
        assert(before[0].len() > 0);
        assert(all.drop_first() =~= rest + seq![line] + after);
        assert forall|i: int| 0 <= i < rest.len() implies (#[trigger] rest[i]).len() > 0 by {
            assert(rest[i] == before[i + 1]);
        }
        bad_line_cuts_search_short(rest, line, after);
    }
}

/// More output does not change what was found before: the packages that the first
/// lines are about come first, in the same order.
pub proof fn earlier_packages_stay(lines: Seq<Seq<char>>, n: int)
    requires
        0 <= n <= lines.len(),
    ensures
        uri_output(lines.take(n)).packages.is_prefix_of(uri_output(lines).packages),
    decreases n,
{
    if n > 0 {
        let first = lines.take(n);
        assert(first[0] == lines[0]);
        assert(first.drop_first() =~= lines.drop_first().take(n - 1));
        earlier_packages_stay(lines.drop_first(), n - 1);
        if lines[0].len() > 0 && is_package_line(lines[0]) && deb_uri(lines[0]) is Ok {
            let package = deb_uri(lines[0])->Ok_0;
            let a = uri_output(first.drop_first()).packages;
            let b = uri_output(lines.drop_first()).packages;
            assert(a =~= b.subrange(0, a.len() as int));
            let longer = seq![package] + b;
            assert(seq![package] + a =~= longer.subrange(0, 1 + a.len() as int));
        }
    }
}

/// The command that prints the packages which are in need of being updated, and asks no
/// questions.
pub fn print_uris_command() -> (r: AptCommand)
    ensures
        r@ == (AptCommandView {
            program: "apt-get"@,
            args: seq!["--print-uris"@, "full-upgrade"@],
            env: seq![("DEBIAN_FRONTEND"@, "noninteractive"@)],
        }),
{
    let command = AptCommand::with_two("apt-get", "--print-uris", "full-upgrade").with_variable(
        "DEBIAN_FRONTEND",
        "noninteractive",
    );
    assert(command@.env =~= seq![("DEBIAN_FRONTEND"@, "noninteractive"@)]);
    command
}

/// Output that comes in two parts is read as the parts are: the packages of the first part come
/// first, then those of the second, where the first part neither ends nor fails.
pub proof fn output_is_read_in_parts(first: Seq<Seq<char>>, second: Seq<Seq<char>>)
    requires
        forall|i: int| 0 <= i < first.len() ==> (#[trigger] first[i]).len() > 0,
        uri_output(first).failure is None,
    ensures
        uri_output(first + second).packages == uri_output(first).packages + uri_output(
            second,
        ).packages,
        uri_output(first + second).failure == uri_output(second).failure,
    decreases first.len(),
{
    let all = first + second;
    if first.len() == 0 {
        assert(all =~= second);
        assert(uri_output(first).packages + uri_output(second).packages =~= uri_output(
            second,
        ).packages);
    } else {
        let rest = first.drop_first();
        assert(all[0] == first[0]);
        assert(first[0].len() > 0);
        assert(all.drop_first() =~= rest + second);
        assert forall|i: int| 0 <= i < rest.len() implies (#[trigger] rest[i]).len() > 0 by {
            assert(rest[i] == first[i + 1]);
        }
        output_is_read_in_parts(rest, second);
        assert(uri_output(all).packages =~= uri_output(first).packages + uri_output(
            second,
        ).packages);
    }
}

/// A line about a package adds that package, behind the packages of the lines before it and
/// before those of the lines after it.
pub proof fn package_line_adds_its_package(
    before: Seq<Seq<char>>,
    line: Seq<char>,
    after: Seq<Seq<char>>,
    package: DebUriView,
)
    requires
        forall|i: int| 0 <= i < before.len() ==> (#[trigger] before[i]).len() > 0,
        uri_output(before).failure is None,
        line.len() > 0,
        line[0] == '\'',
        deb_uri(line) == Ok::<DebUriView, ErrorView>(package),
    ensures
        uri_output(before.push(line)).packages == uri_output(before).packages.push(package),
        uri_output(before.push(line)).failure is None,
        uri_output(before.push(line) + after).packages == uri_output(before).packages.push(package)
            + uri_output(after).packages,
        uri_output(before.push(line) + after).failure == uri_output(after).failure,
{
    let one = seq![line];
    assert(one[0] == line);
    assert(one.drop_first() =~= Seq::<Seq<char>>::empty());
    assert(uri_output(Seq::<Seq<char>>::empty()) == (UriOutputView {
        packages: seq![],
        failure: None,
    }));
    assert(uri_output(one).packages =~= seq![package]);
    assert(before.push(line) =~= before + one);
    output_is_read_in_parts(before, one);
    assert(uri_output(before).packages + seq![package] =~= uri_output(before).packages.push(
        package,
    ));
    output_is_read_in_parts(before.push(line), after);
}

/// An empty line is the end of the output: nothing behind it is looked at.
pub proof fn empty_line_ends_output(before: Seq<Seq<char>>, after: Seq<Seq<char>>)
    ensures
        uri_output(before.push(seq![]) + after) == uri_output(before),
        can_be_read(before.push(seq![]) + after) == can_be_read(before),
        uri_output(seq![]) == (UriOutputView { packages: seq![], failure: None }),
        can_be_read(seq![]),
    decreases before.len(),
{
    let all = before.push(seq![]) + after;
    if before.len() == 0 {
        assert(all[0] == Seq::<char>::empty());
    } else {
        let rest = before.drop_first();
        assert(all[0] == before[0]);
        assert(all.drop_first() =~= rest.push(seq![]) + after);
        empty_line_ends_output(rest, after);
    }
}

/// The packages that `apt-get` prints, one on each line, are found, all of them and in their
/// order.
pub proof fn printed_packages_are_found(packages: Seq<DebUriView>, lines: Seq<Seq<char>>)
    requires
        lines.len() == packages.len(),
        forall|i: int|
            0 <= i < packages.len() ==> {
                let p = #[trigger] packages[i];
                &&& lines[i] == "'"@ + p.uri + "' "@ + p.name + " "@ + decimal(p.size as nat)
                    + " MD5Sum:"@ + p.md5sum + "\n"@
                &&& is_unbroken(p.uri) && is_unbroken(p.name) && is_unbroken(p.md5sum)
                &&& p.uri.len() >= 2
                &&& p.name.len() > 0
            },
    ensures
        can_be_read(lines),
        uri_output(lines) == (UriOutputView { packages, failure: None }),
    decreases lines.len(),
{
    if lines.len() > 0 {
        let p = packages.last();
        assert(p == packages[packages.len() - 1]);
        let line = lines.last();
        let before = lines.drop_last();
        let known = packages.drop_last();
        reveal_strlit("'");
        reveal_strlit("' ");
        reveal_strlit(" ");
        reveal_strlit("\n");
        assert(line =~= printed(p) + "\n"@);
        assert("\n"@[0] == '\n');
        let quoted = "'"@ + p.uri + "'"@;
        lemma_encoded_len(quoted);
        printed_package_is_read_back(p, "\n"@);
        assert(line[0] == '\'');
        assert forall|i: int| 0 <= i < known.len() implies {
            let p = #[trigger] known[i];
            &&& before[i] == "'"@ + p.uri + "' "@ + p.name + " "@ + decimal(p.size as nat)
                + " MD5Sum:"@ + p.md5sum + "\n"@
            &&& is_unbroken(p.uri) && is_unbroken(p.name) && is_unbroken(p.md5sum)
            &&& p.uri.len() >= 2
            &&& p.name.len() > 0
        } by {
            assert(known[i] == packages[i]);
        }
        printed_packages_are_found(known, before);
        assert forall|i: int| 0 <= i < before.len() implies (#[trigger] before[i]).len() > 0 by {
            assert(known[i] == packages[i]);
        }
        assert(before.push(line) =~= lines);
        assert(known.push(p) =~= packages);
        package_line_adds_its_package(before, line, seq![], p);
        lemma_readable_line_is_passed(before, line);
    } else {
        assert(uri_output(lines).packages =~= packages);
    }
}

proof fn lemma_encoded_len(s: Seq<char>)
    ensures
        encode_utf8(s).len() >= s.len(),
    decreases s.len(),
{
    if s.len() > 0 {
        lemma_encoded_len(s.drop_first());
    }
}

proof fn lemma_readable_line_is_passed(before: Seq<Seq<char>>, line: Seq<char>)
    requires
        can_be_read(before),
        is_line(line),
    ensures
        can_be_read(before.push(line)),
    decreases before.len(),
{
    let all = before.push(line);
    if before.len() == 0 {
        assert(all[0] == line);
        assert(all.drop_first() =~= Seq::<Seq<char>>::empty());
        assert(can_be_read(all.drop_first()));
    } else {
        assert(all[0] == before[0]);
        assert(all.drop_first() =~= before.drop_first().push(line));
        if before[0].len() > 0 && !(is_package_line(before[0]) && deb_uri(before[0]) is Err) {
            lemma_readable_line_is_passed(before.drop_first(), line);
        }
    }
}

/// A line that should be about a package, and whose first word does not start and end with a
/// character of one byte, is not passed.
pub proof fn unreadable_line_is_not_passed(
    before: Seq<Seq<char>>,
    line: Seq<char>,
    after: Seq<Seq<char>>,
)
    requires
        forall|i: int| 0 <= i < before.len() ==> (#[trigger] before[i]).len() > 0,
        uri_output(before).failure is None,
        line.len() > 0,
        line[0] == '\'',
        !is_quoted(line),
    ensures
        !can_be_read(before.push(line) + after),
    decreases before.len(),
{
    let all = before.push(line) + after;
    if before.len() == 0 {
        assert(all[0] == line);
    } else {
        let rest = before.drop_first();
        assert(all[0] == before[0]);
        assert(before[0].len() > 0);
        assert(all.drop_first() =~= rest.push(line) + after);
        assert forall|i: int| 0 <= i < rest.len() implies (#[trigger] rest[i]).len() > 0 by {
            assert(rest[i] == before[i + 1]);
        }
        unreadable_line_is_not_passed(rest, line, after);
    }
}

/// The quotes of a URI can be taken off where what stands in their place takes one byte each,
/// or where the first word is too short for a URI; a line that does not start with a quote is not
/// asked for one.
pub proof fn quotes_can_be_taken_off(word: Seq<char>, rest: Seq<char>)
    requires
        word.len() > 0,
        is_unbroken(word),
        rest.len() > 0 ==> is_white_space(rest[0]),
    ensures
        is_quoted(word + rest) <==> encode_utf8(word).len() <= 3 || (word[0] as int <= 127
            && word.last() as int <= 127),
        is_line(word + rest) <==> word[0] != '\'' || is_quoted(word + rest),
        is_line(seq![]),
{
    lemma_first_word(word, rest);
    assert(words(word + rest)[0] == word);
    assert((word + rest)[0] == word[0]);
}

/// A package is made of the first four words of its line: the first without the characters
/// around it, the second as it is, the number that the third denotes, and the fourth without the
/// mark before it. The first word that is not as it should be decides on the error.
pub proof fn line_is_read_by_its_words(line: Seq<char>)
    ensures
        match deb_uri(line) {
            Ok(p) => {
                &&& words(line).len() >= 4
                &&& encode_utf8(words(line)[0]).len() > 3
                &&& words(line)[0].len() >= 2 ==> words(line)[0] == seq![words(line)[0][0]] + p.uri
                    + seq![words(line)[0].last()]
                &&& words(line)[1] == p.name
                &&& u64_value(words(line)[2]) == Some(p.size)
                &&& words(line)[3] == "MD5Sum:"@ + p.md5sum
            },
            Err(ErrorView::UriNotFound(s)) => s == line && words(line).len() == 0,
            Err(ErrorView::UriInvalid(s)) => {
                &&& words(line).len() > 0
                &&& s == words(line)[0]
                &&& encode_utf8(s).len() <= 3
            },
            Err(ErrorView::NameNotFound(s)) => {
                &&& s == line
                &&& words(line).len() == 1
                &&& encode_utf8(words(line)[0]).len() > 3
            },
            Err(ErrorView::SizeNotFound(s)) => {
                &&& s == line
                &&& words(line).len() == 2
                &&& encode_utf8(words(line)[0]).len() > 3
            },
            Err(ErrorView::SizeParse(s)) => {
                &&& words(line).len() >= 3
                &&& encode_utf8(words(line)[0]).len() > 3
                &&& s == words(line)[2]
                &&& u64_value(s) is None
            },
            Err(ErrorView::Md5NotFound(s)) => {
                &&& s == line
                &&& words(line).len() == 3
                &&& encode_utf8(words(line)[0]).len() > 3
                &&& u64_value(words(line)[2]) is Some
            },
            Err(ErrorView::Md5Prefix(s)) => {
                &&& words(line).len() >= 4
                &&& encode_utf8(words(line)[0]).len() > 3
                &&& u64_value(words(line)[2]) is Some
                &&& s == words(line)[3]
                &&& forall|sum: Seq<char>| s != #[trigger] ("MD5Sum:"@ + sum)
            },
            Err(ErrorView::Command(_)) => false,
        },
{
    let found = words(line);
    match deb_uri(line) {
        Ok(p) => {
            let first = found[0];
            if first.len() >= 2 {
                assert(first =~= seq![first[0]] + p.uri + seq![first.last()]);
            }
            assert(found[3] =~= "MD5Sum:"@ + p.md5sum);
        },
        Err(ErrorView::Md5Prefix(s)) => {
            assert forall|sum: Seq<char>| s != #[trigger] ("MD5Sum:"@ + sum) by {
                let marked = "MD5Sum:"@ + sum;
                assert(marked.subrange(0, "MD5Sum:"@.len() as int) =~= "MD5Sum:"@);
            }
        },
        _ => {},
    }
}

/// What parsing a line returns is the package that the line is about, field by field, or the error
/// that it is read as.
pub proof fn parsing_gives_what_the_line_says(line: &str, r: Result<DebUri, Error>)
    requires
        call_ensures(DebUri::from_str, (line,), r),
    ensures
        match r {
            Ok(p) => {
                &&& deb_uri(line@) matches Ok(q)
                &&& q.uri == p.uri@
                &&& q.name == p.name@
                &&& q.size == p.size
                &&& q.md5sum == p.md5sum@
            },
            Err(Error::Command(_)) => deb_uri(line@) matches Err(ErrorView::Command(_)),
            Err(Error::UriNotFound(s)) => deb_uri(line@) == Err::<DebUriView, ErrorView>(
                ErrorView::UriNotFound(s@),
            ),
            Err(Error::UriInvalid(s)) => deb_uri(line@) == Err::<DebUriView, ErrorView>(
                ErrorView::UriInvalid(s@),
            ),
            Err(Error::NameNotFound(s)) => deb_uri(line@) == Err::<DebUriView, ErrorView>(
                ErrorView::NameNotFound(s@),
            ),
            Err(Error::SizeNotFound(s)) => deb_uri(line@) == Err::<DebUriView, ErrorView>(
                ErrorView::SizeNotFound(s@),
            ),
            Err(Error::SizeParse(s)) => deb_uri(line@) == Err::<DebUriView, ErrorView>(
                ErrorView::SizeParse(s@),
            ),
            Err(Error::Md5NotFound(s)) => deb_uri(line@) == Err::<DebUriView, ErrorView>(
                ErrorView::Md5NotFound(s@),
            ),
            Err(Error::Md5Prefix(s)) => deb_uri(line@) == Err::<DebUriView, ErrorView>(
                ErrorView::Md5Prefix(s@),
            ),
        },
{
}

/// A line that was read ends the output where it is empty, is passed over where it does not
/// start with a quote, and is parsed otherwise.
pub proof fn read_lines_are_told_apart(line: &str, step: LineStep)
    requires
        call_ensures(read_line, (line,), step),
    ensures
        step is End <==> line@.len() == 0,
        step is Skip <==> line@.len() > 0 && line@[0] != '\'',
        step matches LineStep::Package(p) ==> deb_uri(line@) == Ok::<DebUriView, ErrorView>(p@),
        step matches LineStep::Invalid(why) ==> deb_uri(line@) == Err::<DebUriView, ErrorView>(
            why@,
        ),
        step is Package <==> line@.len() > 0 && line@[0] == '\'' && deb_uri(line@) is Ok,
{
}

/// What is collected from lines of output is what they come to, package by package and field by
/// field.
pub proof fn collected_packages_are_those_of_the_output(
    lines: &Vec<String>,
    r: (Vec<DebUri>, Option<Error>),
)
    requires
        call_ensures(update_uris, (lines,), r),
    ensures
        r.0@.len() == uri_output(texts(lines@)).packages.len(),
        forall|i: int|
            0 <= i < r.0@.len() ==> {
                let p = #[trigger] r.0@[i];
                let q = uri_output(texts(lines@)).packages[i];
                &&& p.uri@ == q.uri
                &&& p.name@ == q.name
                &&& p.size == q.size
                &&& p.md5sum@ == q.md5sum
            },
        match r.1 {
            None => uri_output(texts(lines@)).failure is None,
            Some(why) => uri_output(texts(lines@)).failure == Some(why@),
        },
{
    assert forall|i: int| 0 <= i < r.0@.len() implies {
        let p = #[trigger] r.0@[i];
        let q = uri_output(texts(lines@)).packages[i];
        &&& p.uri@ == q.uri
        &&& p.name@ == q.name
        &&& p.size == q.size
        &&& p.md5sum@ == q.md5sum
    } by {
        assert(package_views(r.0@)[i] == r.0@[i]@);
    }
}

/// Packages are equal exactly where their URIs are, whatever else they hold.
pub proof fn packages_are_equal_by_uri(a: DebUri, b: DebUri)
    ensures
        vstd::std_specs::cmp::PartialEqSpec::eq_spec(&a, &b) <==> a.uri@ == b.uri@,
{
}

/// An error in words says what is wrong, and shows the part of the output that it is about.
pub proof fn errors_show_their_subject(error: ErrorView, text: Seq<char>)
    requires
        error.says(text),
    ensures
        error matches ErrorView::UriNotFound(s) ==> text == "uri not found in output: "@ + s,
        error matches ErrorView::UriInvalid(s) ==> text == "invalid URI value: "@ + s,
        error matches ErrorView::NameNotFound(s) ==> text == "name not found in output: "@ + s,
        error matches ErrorView::SizeNotFound(s) ==> text == "size not found in output: "@ + s,
        error matches ErrorView::SizeParse(s) ==> text
            == "size in output could not be parsed as an integer: "@ + s,
        error matches ErrorView::Md5NotFound(s) ==> text == "md5sum not found in output: "@ + s,
        error matches ErrorView::Md5Prefix(s) ==> text
            == "md5 prefix (MD5Sum:) not found in md5sum: "@ + s,
        error matches ErrorView::Command(why) ==> exists|words: String| #[trigger]
            to_string_from_display_ensures::<std::io::Error>(&why, words) && text
                == "apt command failed: "@ + words@,
{
}

/// What an error is put in is what it says.
pub proof fn errors_are_put_in_words(error: &Error, r: String)
    requires
        call_ensures(Error::message, (error,), r),
    ensures
        error@.says(r@),
        match *error {
            Error::UriNotFound(s) => s@.is_suffix_of(r@),
            Error::UriInvalid(s) => s@.is_suffix_of(r@),
            Error::NameNotFound(s) => s@.is_suffix_of(r@),
            Error::SizeNotFound(s) => s@.is_suffix_of(r@),
            Error::SizeParse(s) => s@.is_suffix_of(r@),
            Error::Md5NotFound(s) => s@.is_suffix_of(r@),
            Error::Md5Prefix(s) => s@.is_suffix_of(r@),
            Error::Command(_) => "apt command failed: "@.is_prefix_of(r@),
        },
{
    match *error {
        Error::Command(why) => {
            let prefix = "apt command failed: "@;
            let words = choose|words: String| #[trigger]
                to_string_from_display_ensures::<std::io::Error>(&why, words) && r@ == prefix
                    + words@;
            assert(r@.subrange(0, prefix.len() as int) =~= prefix);
        },
        Error::UriNotFound(s)
        | Error::UriInvalid(s)
        | Error::NameNotFound(s)
        | Error::SizeNotFound(s)
        | Error::SizeParse(s)
        | Error::Md5NotFound(s)
        | Error::Md5Prefix(s) => {
            assert(r@.subrange(r@.len() - s@.len(), r@.len() as int) =~= s@);
        },
    }
}

/// The packages to update are asked of `apt-get`, which is to print their URIs for a full upgrade
/// and to ask no questions.
pub proof fn apt_get_prints_the_uris(r: AptCommand)
    requires
        call_ensures(print_uris_command, (), r),
    ensures
        r.program@ == "apt-get"@,
        r.args@.len() == 2,
        r.args@[0]@ == "--print-uris"@,
        r.args@[1]@ == "full-upgrade"@,
        r.env@.len() == 1,
        r.env@[0].0@ == "DEBIAN_FRONTEND"@,
        r.env@[0].1@ == "noninteractive"@,
{
    let env = crate::command::variables(r.env@);
    assert(r@.args == texts(r.args@) && r@.env == env);
    assert(env == seq![("DEBIAN_FRONTEND"@, "noninteractive"@)]);
    assert(env.len() == r.env@.len());
    assert(r@.args[0] == r.args@[0]@);
    assert(r@.args[1] == r.args@[1]@);
    assert(env[0] == (r.env@[0].0@, r.env@[0].1@));
}

/// A line of output is held to be readable where it is not about a package, or where its quotes can
/// be taken off.
pub proof fn lines_are_tested_for_their_quotes(line: &str, r: bool, quoted: bool)
    requires
        call_ensures(check_line, (line,), r),
        call_ensures(DebUri::can_parse, (line,), quoted),
    ensures
        r == (line@.len() == 0 || line@[0] != '\'' || quoted),
        quoted == is_quoted(line@),
{
}

/// A hasher that is fed a text is fed it by the outside call, and by nothing else.
proof fn hashers_are_fed_by_the_outside_call<H: std::hash::Hasher>(text: Seq<char>, state: &mut H)
    requires
        feeds(text, state),
    ensures
        exists|t: &str| t@ == text && #[trigger] call_ensures(hash_text::<H>, (t, state), ()),
{
}

/// Every line whose quotes can be taken off is parsed, and all output is read whose lines can be.
pub proof fn readable_output_is_taken(line: &str, lines: &Vec<String>)
    ensures
        is_quoted(line@) ==> call_requires(DebUri::from_str, (line,)),
        is_line(line@) ==> call_requires(read_line, (line,)),
        can_be_read(texts(lines@)) ==> call_requires(update_uris, (lines,)),
        call_requires(DebUri::can_parse, (line,)),
        call_requires(check_line, (line,)),
{
}

} // verus!
