//! What the extension tells a core about itself.

use vstd::prelude::*;
use crate::json::{empty_object, member, with_member, Json, JsonView};
use crate::text::{chars_of, find_char, index_of, lemma_find_char_unique};

verus! {

/// The extension, its version, and who made it.
#[derive(Debug)]
pub struct Info {
    pub extension_id: String,
    pub display_name: &'static str,
    pub display_version: &'static str,
    pub publisher: Option<&'static str>,
    pub email: &'static str,
    pub website: Option<&'static str>,
}

impl Clone for Info {
    fn clone(&self) -> (r: Self)
        ensures
            r == *self,
    {
        Info {
            extension_id: self.extension_id.clone(),
            display_name: self.display_name,
            display_version: self.display_version,
            publisher: self.publisher,
            email: self.email,
            website: self.website,
        }
    }
}

/// An optional text as a document: `null` where there is none.
pub open spec fn opt_str_json(s: Option<&str>) -> JsonView {
    match s {
        Some(s) => JsonView::Text(s@),
        None => JsonView::Null,
    }
}

/// Whether a character is white space.
pub open spec fn is_white(c: char) -> bool {
    ||| '\u{9}' <= c && c <= '\u{d}'
    ||| c == ' '
    ||| c == '\u{85}'
    ||| c == '\u{a0}'
    ||| c == '\u{1680}'
    ||| '\u{2000}' <= c && c <= '\u{200a}'
    ||| c == '\u{2028}'
    ||| c == '\u{2029}'
    ||| c == '\u{202f}'
    ||| c == '\u{205f}'
    ||| c == '\u{3000}'
}

/// The first position, from `from` on, that is not white space.
pub open spec fn past_white(s: Seq<char>, from: int) -> int
    decreases s.len() - from,
{
    if from < s.len() && is_white(s[from]) {
        past_white(s, from + 1)
    } else {
        from
    }
}

/// Where the white space begins that ends at `to`, but not before `from`.
pub open spec fn before_white(s: Seq<char>, from: int, to: int) -> int
    decreases to - from,
{
    if from < to && is_white(s[to - 1]) {
        before_white(s, from, to - 1)
    } else {
        to
    }
}

/// A text without the white space around it.
pub open spec fn trimmed(s: Seq<char>) -> Seq<char> {
    let from = past_white(s, 0);
    s.subrange(from, before_white(s, from, s.len() as int))
}

fn white(c: char) -> (r: bool)
    ensures
        r == is_white(c),
{
    ('\u{9}' <= c && c <= '\u{d}') || c == ' ' || c == '\u{85}' || c == '\u{a0}' || c
        == '\u{1680}' || ('\u{2000}' <= c && c <= '\u{200a}') || c == '\u{2028}' || c
        == '\u{2029}' || c == '\u{202f}' || c == '\u{205f}' || c == '\u{3000}'
}

/// Takes the white space around a text away.
pub fn trim<'a>(text: &'a str) -> (r: &'a str)
    ensures
        r@ == trimmed(text@),
{
    let s = chars_of(text);
    let mut from: usize = 0;
    while from < s.len() && white(s[from])
        invariant
            from <= s@.len(),
            past_white(s@, 0) == past_white(s@, from as int),
        decreases s@.len() - from,
    {
        from += 1;
    }
    let mut to: usize = s.len();
    while from < to && white(s[to - 1])
        invariant
            from <= to <= s@.len(),
            before_white(s@, from as int, s@.len() as int) == before_white(
                s@,
                from as int,
                to as int,
            ),
        decreases to - from,
    {
        to -= 1;
    }
    text.substring_char(from, to)
}

/// The name and the address of the first of several authors, which colons part: `None` where an
/// address is begun with `<` and not ended behind it.
pub open spec fn first_author(authors: Seq<char>) -> Option<(Option<Seq<char>>, Seq<char>)> {
    if authors.len() == 0 {
        Some((None, Seq::empty()))
    } else {
        let author = authors.take(find_char(authors, ':', 0));
        let start = find_char(author, '<', 0);
        let end = find_char(author, '>', 0);
        if start >= author.len() {
            Some((Some(author), Seq::empty()))
        } else if end < author.len() && start < end {
            Some((Some(trimmed(author.take(start))), author.subrange(start + 1, end)))
        } else {
            None
        }
    }
}

/// The website of a package: its home page or else its repository.
pub open spec fn website_of(homepage: Seq<char>, repository: Seq<char>) -> Option<Seq<char>> {
    if homepage.len() > 0 {
        Some(homepage)
    } else if repository.len() > 0 {
        Some(repository)
    } else {
        None
    }
}

/// What an optional text holds.
pub open spec fn opt_str(s: Option<&str>) -> Option<Seq<char>> {
    match s {
        Some(s) => Some(s@),
        None => None,
    }
}

/// Finds the name and the address of the first author.
pub fn parse_author(authors: &'static str) -> (r: Option<(Option<&'static str>, &'static str)>)
    ensures
        match r {
            Some((publisher, email)) => first_author(authors@) == Some(
                (opt_str(publisher), email@),
            ),
            None => first_author(authors@) is None,
        },
{
    proof {
        reveal_strlit("");
        assert(""@ =~= Seq::<char>::empty());
    }
    if authors.is_empty() {
        return Some((None, ""));
    }
    let all = chars_of(authors);
    let colon = index_of(&all, ':', 0);
    let author: &'static str = authors.substring_char(0, colon);
    assert(author@ =~= authors@.take(colon as int));
    let s = chars_of(author);
    let start = index_of(&s, '<', 0);
    if start >= s.len() {
        return Some((Some(author), ""));
    }
    let end = index_of(&s, '>', 0);
    if end < s.len() && start < end {
        let name: &'static str = author.substring_char(0, start);
        assert(name@ =~= author@.take(start as int));
        let email: &'static str = author.substring_char(start + 1, end);
        Some((Some(trim(name)), email))
    } else {
        None
    }
}

impl Info {
    pub fn new(
        extension_id: String,
        display_name: &'static str,
        display_version: &'static str,
        publisher: Option<&'static str>,
        email: &'static str,
        website: Option<&'static str>,
    ) -> (r: Self)
        ensures
            r == (Info {
                extension_id,
                display_name,
                display_version,
                publisher,
                email,
                website,
            }),
    {
        Info { extension_id, display_name, display_version, publisher, email, website }
    }

    /// The extension that a package is. The id is the one of the package behind `prefix` and a
    /// dot.
    pub fn of_package(
        prefix: &str,
        display_name: &'static str,
        name: &str,
        authors: &'static str,
        homepage: &'static str,
        repository: &'static str,
        version: &'static str,
    ) -> (r: Option<Info>)
        ensures
            match first_author(authors@) {
                Some((publisher, email)) => {
                    &&& r matches Some(info)
                    &&& info.extension_id@ == prefix@ + "."@ + name@
                    &&& info.display_name == display_name
                    &&& info.display_version == version
                    &&& opt_str(info.publisher) == publisher
                    &&& info.email@ == email
                    &&& opt_str(info.website) == website_of(homepage@, repository@)
                },
                None => r is None,
            },
    {
        let (publisher, email) = match parse_author(authors) {
            Some(author) => author,
            None => {
                return None;
            },
        };
        let website = if !homepage.is_empty() {
            Some(homepage)
        } else if !repository.is_empty() {
            Some(repository)
        } else {
            None
        };
        let mut extension_id = prefix.to_owned();
        extension_id.append(".");
        extension_id.append(name);
        Some(Info::new(extension_id, display_name, version, publisher, email, website))
    }

    /// The extension as a document.
    pub open spec fn json(self) -> JsonView {
        let v = empty_object();
        let v = with_member(v, "extension_id"@, JsonView::Text(self.extension_id@));
        let v = with_member(v, "display_name"@, JsonView::Text(self.display_name@));
        let v = with_member(v, "display_version"@, JsonView::Text(self.display_version@));
        let v = with_member(v, "publisher"@, opt_str_json(self.publisher));
        let v = with_member(v, "email"@, JsonView::Text(self.email@));
        with_member(v, "website"@, opt_str_json(self.website))
    }

    /// The extension as a document.
    pub fn to_json(&self) -> (r: Json)
        ensures
            r@ == self.json(),
    {
        let mut v = Json::object();
        v.set("extension_id", Json::text(self.extension_id.as_str()));
        v.set("display_name", Json::text(self.display_name));
        v.set("display_version", Json::text(self.display_version));
        v.set("publisher", str_json(self.publisher));
        v.set("email", Json::text(self.email));
        v.set("website", str_json(self.website));
        v
    }
}

fn str_json(s: Option<&str>) -> (r: Json)
    ensures
        r@ == opt_str_json(s),
{
    match s {
        Some(s) => Json::text(s),
        None => Json::Null,
    }
}

/// The extension is told of with each of its parts under the name of that part, `null` where it
/// has none.
pub proof fn extension_is_told_of_as_it_is(info: Info)
    ensures
        ({
            let json = info.json();
            &&& member(json, "extension_id"@) == Some(JsonView::Text(info.extension_id@))
            &&& member(json, "display_name"@) == Some(JsonView::Text(info.display_name@))
            &&& member(json, "display_version"@) == Some(JsonView::Text(info.display_version@))
            &&& member(json, "email"@) == Some(JsonView::Text(info.email@))
            &&& match info.publisher {
                Some(text) => member(json, "publisher"@) == Some(JsonView::Text(text@)),
                None => member(json, "publisher"@) == Some(JsonView::Null),
            }
            &&& match info.website {
                Some(text) => member(json, "website"@) == Some(JsonView::Text(text@)),
                None => member(json, "website"@) == Some(JsonView::Null),
            }
        }),
{
    reveal_strlit("extension_id");
    reveal_strlit("display_name");
    reveal_strlit("display_version");
    reveal_strlit("publisher");
    reveal_strlit("email");
    reveal_strlit("website");
    assert("extension_id"@[0] != "display_name"@[0]);
    assert("extension_id"@.len() != "display_version"@.len());
    assert("extension_id"@.len() != "publisher"@.len());
    assert("extension_id"@.len() != "email"@.len());
    assert("extension_id"@.len() != "website"@.len());
    assert("display_name"@.len() != "display_version"@.len());
    assert("display_name"@.len() != "publisher"@.len());
    assert("display_name"@.len() != "email"@.len());
    assert("display_name"@.len() != "website"@.len());
    assert("display_version"@.len() != "publisher"@.len());
    assert("display_version"@.len() != "email"@.len());
    assert("display_version"@.len() != "website"@.len());
    assert("publisher"@.len() != "email"@.len());
    assert("publisher"@.len() != "website"@.len());
    assert("email"@.len() != "website"@.len());
}

proof fn lemma_past_white(s: Seq<char>, from: int)
    requires
        0 <= from <= s.len(),
    ensures
        from <= past_white(s, from) <= s.len(),
        forall|i: int| from <= i < past_white(s, from) ==> is_white(#[trigger] s[i]),
        past_white(s, from) < s.len() ==> !is_white(s[past_white(s, from)]),
    decreases s.len() - from,
{
    if from < s.len() && is_white(s[from]) {
        lemma_past_white(s, from + 1);
    }
}

proof fn lemma_before_white(s: Seq<char>, from: int, to: int)
    requires
        0 <= from <= to <= s.len(),
    ensures
        from <= before_white(s, from, to) <= to,
        forall|i: int| before_white(s, from, to) <= i < to ==> is_white(#[trigger] s[i]),
        before_white(s, from, to) > from ==> !is_white(s[before_white(s, from, to) - 1]),
    decreases to - from,
{
    if from < to && is_white(s[to - 1]) {
        lemma_before_white(s, from, to - 1);
    }
}

/// White space is a text's own at no end once it was taken away, and nothing else was.
pub proof fn only_white_space_is_taken_away(s: Seq<char>)
    ensures
        trimmed(s).len() > 0 ==> !is_white(trimmed(s)[0]) && !is_white(trimmed(s).last()),
        exists|a: Seq<char>, b: Seq<char>|
            {
                &&& s == #[trigger] (a + trimmed(s) + b)
                &&& forall|i: int| 0 <= i < a.len() ==> is_white(#[trigger] a[i])
                &&& forall|i: int| 0 <= i < b.len() ==> is_white(#[trigger] b[i])
            },
{
    let from = past_white(s, 0);
    lemma_past_white(s, 0);
    lemma_before_white(s, from, s.len() as int);
    let to = before_white(s, from, s.len() as int);
    let a = s.take(from);
    let b = s.skip(to);
    assert(s =~= a + trimmed(s) + b);
    assert forall|i: int| 0 <= i < a.len() implies is_white(#[trigger] a[i]) by {
        assert(is_white(s[i]));
    }
    assert forall|i: int| 0 <= i < b.len() implies is_white(#[trigger] b[i]) by {
        assert(is_white(s[to + i]));
    }
    if trimmed(s).len() > 0 {
        assert(trimmed(s)[0] == s[from]);
        assert(trimmed(s).last() == s[to - 1]);
        assert(!is_white(s[from]));
    }
}

/// Of several authors the first counts: an author with an address in angle brackets has the name
/// before it, without white space around it, and that address; another one is a name alone.
pub proof fn first_author_counts(
    name: Seq<char>,
    address: Seq<char>,
    rest: Seq<char>,
    others: Seq<char>,
)
    requires
        !name.contains(':') && !name.contains('<') && !name.contains('>'),
        !address.contains(':') && !address.contains('>'),
        !rest.contains(':'),
        others.len() == 0 || others[0] == ':',
    ensures
        first_author(name + seq!['<'] + address + seq!['>'] + rest + others) == Some(
            (Some(trimmed(name)), address),
        ),
        name.len() > 0 ==> first_author(name + others) == Some(
            (Some(name), Seq::<char>::empty()),
        ),
        first_author(Seq::<char>::empty()) == Some((None::<Seq<char>>, Seq::<char>::empty())),
        first_author(name + seq!['<'] + address + others) is None,
{
    let author = name + seq!['<'] + address + seq!['>'] + rest;
    let all = author + others;
    let n = name.len() as int;
    let m = n + 1 + address.len();
    assert forall|i: int| 0 <= i < author.len() implies author[i] != ':' by {
        if i < n {
            assert(author[i] == name[i]);
        } else if n < i < m {
            assert(author[i] == address[i - n - 1]);
        } else if i > m {
            assert(author[i] == rest[i - m - 1]);
        }
    }
    assert forall|i: int| 0 <= i < author.len() implies all[i] != ':' by {
        assert(all[i] == author[i]);
    }
    assert(others.len() > 0 ==> all[author.len() as int] == ':');
    lemma_find_char_unique(all, ':', 0, author.len() as int);
    assert(all.take(author.len() as int) =~= author);
    assert forall|i: int| 0 <= i < n implies author[i] != '<' by {
        assert(author[i] == name[i]);
    }
    assert(author[n] == '<');
    lemma_find_char_unique(author, '<', 0, n);
    assert forall|i: int| 0 <= i < m implies author[i] != '>' by {
        if i < n {
            assert(author[i] == name[i]);
        } else if n < i {
            assert(author[i] == address[i - n - 1]);
        }
    }
    assert(author[m] == '>');
    lemma_find_char_unique(author, '>', 0, m);
    assert(author.take(n) =~= name);
    assert(author.subrange(n + 1, m) =~= address);
    assert(all =~= name + seq!['<'] + address + seq!['>'] + rest + others);
    let plain = name + others;
    assert forall|i: int| 0 <= i < n implies plain[i] != ':' by {
        assert(plain[i] == name[i]);
    }
    assert(others.len() > 0 ==> plain[n] == ':');
    lemma_find_char_unique(plain, ':', 0, n);
    assert(plain.take(n) =~= name);
    lemma_find_char_unique(name, '<', 0, n);
    let open = name + seq!['<'] + address;
    let begun = open + others;
    assert forall|i: int| 0 <= i < open.len() implies begun[i] != ':' && open[i] != '>' by {
        if i < n {
            assert(begun[i] == name[i]);
        } else if n < i {
            assert(begun[i] == address[i - n - 1]);
        }
    }
    assert(others.len() > 0 ==> begun[open.len() as int] == ':');
    lemma_find_char_unique(begun, ':', 0, open.len() as int);
    assert(begun.take(open.len() as int) =~= open);
    assert forall|i: int| 0 <= i < n implies open[i] != '<' by {
        assert(open[i] == name[i]);
    }
    assert(open[n] == '<');
    lemma_find_char_unique(open, '<', 0, n);
    lemma_find_char_unique(open, '>', 0, open.len() as int);
}

/// A package's website is its home page, without one its repository, and without both none.
pub proof fn home_page_counts_before_repository(homepage: Seq<char>, repository: Seq<char>)
    ensures
        homepage.len() > 0 ==> website_of(homepage, repository) == Some(homepage),
        homepage.len() == 0 && repository.len() > 0 ==> website_of(homepage, repository) == Some(
            repository,
        ),
        homepage.len() == 0 && repository.len() == 0 ==> website_of(homepage, repository) is None,
{
}

/// White space is what Unicode calls so: the control characters from the tabulator to the
/// carriage return, the blank, the next line, and the spaces and separators of all scripts.
pub proof fn white_space_has_its_codes(c: char)
    ensures
        is_white(c) <==> {
            let code = c as u32;
            ||| 9 <= code <= 13
            ||| code == 32
            ||| code == 133
            ||| code == 160
            ||| code == 5760
            ||| 8192 <= code <= 8202
            ||| code == 8232
            ||| code == 8233
            ||| code == 8239
            ||| code == 8287
            ||| code == 12288
        },
{
}

} // verus!
