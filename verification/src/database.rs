//! Entries, their metadata block and the rules of the entry store.

use crate::text::{
    chars_of, count_of, decimal, decimal_text, find_char, first_index, law_decimal_reads_back,
    lemma_decimal_distinct, lemma_first_index, lemma_first_index_is, parse_count, same_chars,
};
use crate::editor::{labels_of, timestamp_labels};
use vstd::prelude::*;
use vstd::string::{StrSliceExecFns, StringExecFns};

verus! {

/// The stable handle of an entry: a row number in a table, or the path of a
/// file.
#[derive(Debug, PartialEq)]
pub enum Identifier {
    Row(i32),
    File(String),
}

/// One stored note.
#[derive(Debug, PartialEq)]
pub struct Entry {
    pub identifier: Identifier,
    pub title: String,
    pub content: String,
    pub favorite: bool,
    pub tags: Vec<String>,
    pub created_at: u64,
    pub modified_at: u64,
}

/// The metadata that an entry carries at the head of its stored text.
#[derive(Debug, PartialEq)]
pub struct Frontmatter {
    pub favorite: bool,
    pub tags: Vec<String>,
}

/// Why the store could not read or change an entry.
#[derive(Debug, PartialEq)]
pub enum StoreError {
    /// The path names no regular file that can be read as text.
    NotAFile,
    /// The path has no stem to take the title from.
    UnreadableTitle,
    /// The text opens a metadata block and never closes it.
    MalformedFrontmatter,
    /// The metadata block could not be read; the text says why.
    FrontmatterParseError(String),
    /// The medium does not tell when the entry was created or modified.
    MetadataUnavailable,
    /// No entry carries the identifier.
    NotFound,
    /// The backup could not be written.
    BackupIoFailure,
}

/// An entry as a row of a table holds it: the timestamp is text.
#[derive(Debug, PartialEq)]
pub struct EntryQuery {
    pub id: i32,
    pub title: String,
    pub timestamp: String,
    pub content: String,
    pub favorite: bool,
}

/// Whether two identifiers name the same entry.
pub open spec fn same_identifier(a: Identifier, b: Identifier) -> bool {
    match (a, b) {
        (Identifier::Row(x), Identifier::Row(y)) => x == y,
        (Identifier::File(p), Identifier::File(q)) => p@ == q@,
        _ => false,
    }
}

impl Identifier {
    /// Whether `self` and `other` name the same entry.
    pub fn is(&self, other: &Identifier) -> (r: bool)
        ensures
            r == same_identifier(*self, *other),
    {
        match (self, other) {
            (Identifier::Row(x), Identifier::Row(y)) => *x == *y,
            (Identifier::File(p), Identifier::File(q)) => {
                let a = chars_of(p.as_str());
                let b = chars_of(q.as_str());
                same_chars(&a, &b)
            },
            _ => false,
        }
    }
}

/// The metadata block as a mapping: each key with its value, or `None`
/// where the block does not have the key.
#[derive(Debug, PartialEq)]
pub struct Mapping {
    pub favorite: Option<bool>,
    pub tags: Option<Vec<String>>,
}

/// The favorite flag that a mapping stands for: false where it has none.
pub open spec fn favorite_of(mapping: Mapping) -> bool {
    match mapping.favorite {
        Some(flag) => flag,
        None => false,
    }
}

/// The tags that a mapping stands for: none where it has no list.
pub open spec fn tags_of(mapping: Mapping) -> Seq<String> {
    match mapping.tags {
        Some(tags) => tags@,
        None => Seq::empty(),
    }
}

/// Whether `mapping` is how the metadata is written: a key is there only
/// for a value that is not the default.
pub open spec fn written_as(frontmatter: Frontmatter, mapping: Mapping) -> bool {
    &&& mapping.favorite == if frontmatter.favorite {
        Some(true)
    } else {
        None::<bool>
    }
    &&& match mapping.tags {
        Some(tags) => frontmatter.tags@.len() > 0 && tags@ == frontmatter.tags@,
        None => frontmatter.tags@.len() == 0,
    }
}

/// Whether `frontmatter` is what the mapping reads as: a key that is absent
/// gives the default.
pub open spec fn read_as(mapping: Mapping, frontmatter: Frontmatter) -> bool {
    frontmatter.favorite == favorite_of(mapping) && frontmatter.tags@ == tags_of(mapping)
}

/// Writing metadata and reading it back gives the favorite flag and the
/// tags that were written, also where they were left out as defaults.
pub proof fn law_frontmatter_round_trip(before: Frontmatter, mapping: Mapping, after: Frontmatter)
    requires
        written_as(before, mapping),
        read_as(mapping, after),
    ensures
        after.favorite == before.favorite,
        after.tags@ == before.tags@,
{
    if mapping.tags is None {
        assert(before.tags@ =~= Seq::<String>::empty());
    }
}

impl Frontmatter {
    /// The metadata of an entry without any: not a favorite, no tags.
    pub fn new() -> (r: Frontmatter)
        ensures
            !r.favorite,
            r.tags@.len() == 0,
    {
        Frontmatter { favorite: false, tags: Vec::new() }
    }

    /// The metadata that a mapping stands for: a key that is absent gives
    /// the default.
    pub fn from_mapping(mapping: Mapping) -> (r: Frontmatter)
        ensures
            read_as(mapping, r),
    {
        let favorite = match mapping.favorite {
            Some(flag) => flag,
            None => false,
        };
        let tags = match mapping.tags {
            Some(tags) => tags,
            None => Vec::new(),
        };
        proof {
            if mapping.tags is None {
                assert(tags@ =~= Seq::<String>::empty());
            }
        }
        Frontmatter { favorite, tags }
    }

    /// The mapping to write for the metadata: a value that is the default
    /// gets no key.
    pub fn into_mapping(self) -> (r: Mapping)
        ensures
            written_as(self, r),
    {
        let favorite = if self.favorite {
            Some(true)
        } else {
            None
        };
        let tags = if self.tags.len() > 0 {
            Some(self.tags)
        } else {
            None
        };
        Mapping { favorite, tags }
    }
}

/// A copy of a list of tags.
pub fn copy_tags(tags: &Vec<String>) -> (r: Vec<String>)
    ensures
        r@ == tags@,
{
    let mut out: Vec<String> = Vec::new();
    let mut i: usize = 0;
    while i < tags.len()
        invariant
            0 <= i <= tags@.len(),
            out@ == tags@.take(i as int),
        decreases tags@.len() - i,
    {
        out.push(tags[i].clone());
        proof {
            assert(out@ =~= tags@.take(i + 1));
        }
        i += 1;
    }
    proof {
        assert(tags@.take(tags@.len() as int) =~= tags@);
    }
    out
}

impl Clone for Identifier {
    fn clone(&self) -> (r: Identifier)
        ensures
            r == *self,
    {
        match self {
            Identifier::Row(n) => Identifier::Row(*n),
            Identifier::File(p) => Identifier::File(p.clone()),
        }
    }
}

impl Clone for Entry {
    fn clone(&self) -> (r: Entry)
        ensures
            r.identifier == self.identifier,
            r.title == self.title,
            r.content == self.content,
            r.favorite == self.favorite,
            r.tags@ == self.tags@,
            r.created_at == self.created_at,
            r.modified_at == self.modified_at,
    {
        Entry {
            identifier: self.identifier.clone(),
            title: self.title.clone(),
            content: self.content.clone(),
            favorite: self.favorite,
            tags: copy_tags(&self.tags),
            created_at: self.created_at,
            modified_at: self.modified_at,
        }
    }
}

impl Entry {
    /// The entry that a row holds. The timestamp of the row has to be a
    /// count of seconds; it is the time of creation and of modification. A
    /// row has no tags.
    pub fn from_query(query: EntryQuery) -> (r: Result<Entry, StoreError>)
        ensures
            match count_of(query.timestamp@) {
                Some(secs) => r is Ok && r->Ok_0.identifier == Identifier::Row(query.id)
                    && r->Ok_0.title == query.title && r->Ok_0.content == query.content
                    && r->Ok_0.favorite == query.favorite && r->Ok_0.tags@.len() == 0
                    && r->Ok_0.created_at == secs && r->Ok_0.modified_at == secs,
                None => r == Err::<Entry, StoreError>(StoreError::MetadataUnavailable),
            },
    {
        match parse_count(query.timestamp.as_str()) {
            Some(secs) => Ok(
                Entry {
                    identifier: Identifier::Row(query.id),
                    title: query.title,
                    content: query.content,
                    favorite: query.favorite,
                    tags: Vec::new(),
                    created_at: secs,
                    modified_at: secs,
                },
            ),
            None => Err(StoreError::MetadataUnavailable),
        }
    }

    /// The row that holds the entry; none for an entry that is a file. The
    /// timestamp of the row is the time of creation in decimal, which reads
    /// back as that time.
    pub fn into_query(self) -> (r: Option<EntryQuery>)
        ensures
            match self.identifier {
                Identifier::Row(id) => r is Some && r->0.id == id && r->0.title == self.title
                    && r->0.content == self.content && r->0.favorite == self.favorite
                    && r->0.timestamp@ == decimal_text(self.created_at as nat) && count_of(
                    r->0.timestamp@,
                ) == Some(self.created_at as int),
                Identifier::File(_) => r is None,
            },
    {
        proof {
            law_decimal_reads_back(self.created_at);
        }
        match self.identifier {
            Identifier::Row(id) => Some(
                EntryQuery {
                    id,
                    title: self.title,
                    timestamp: decimal(self.created_at),
                    content: self.content,
                    favorite: self.favorite,
                },
            ),
            Identifier::File(_) => None,
        }
    }

    /// The day on which the entry was created, as it is shown.
    pub fn get_date(&self) -> (r: Option<String>)
        ensures
            match r {
                Some(day) => match labels_of(self.created_at) {
                    Some(labels) => labels.0 == day@,
                    None => false,
                },
                None => labels_of(self.created_at) is None,
            },
    {
        match timestamp_labels(self.created_at) {
            Some(labels) => Some(labels.0),
            None => None,
        }
    }

    /// The time of day at which the entry was created, as it is shown.
    pub fn get_time(&self) -> (r: Option<String>)
        ensures
            match r {
                Some(time) => match labels_of(self.created_at) {
                    Some(labels) => labels.1 == time@,
                    None => false,
                },
                None => labels_of(self.created_at) is None,
            },
    {
        match timestamp_labels(self.created_at) {
            Some(labels) => Some(labels.1),
            None => None,
        }
    }

    /// The metadata of the entry, as it is written at the head of its text.
    pub fn frontmatter(&self) -> (r: Frontmatter)
        ensures
            r.favorite == self.favorite,
            r.tags@ == self.tags@,
    {
        Frontmatter { favorite: self.favorite, tags: copy_tags(&self.tags) }
    }
}

/// The line that opens and closes the metadata block.
pub open spec fn marker() -> Seq<char> {
    seq!['-', '-', '-']
}

/// Where the line that starts at `from` ends: at the next line feed, or at
/// the end of the text.
pub open spec fn line_end(s: Seq<char>, from: int) -> int {
    from + first_index(s.skip(from), '\n')
}

/// The line that starts at `from`, without its line feed.
pub open spec fn line_at(s: Seq<char>, from: int) -> Seq<char> {
    s.subrange(from, line_end(s, from))
}

/// The start of the first marker line among the lines that start at `from`
/// or later.
pub open spec fn closing_marker(s: Seq<char>, from: int) -> Option<int>
    decreases s.len() - from,
    via closing_marker_decreases
{
    if from < 0 || from > s.len() {
        None
    } else if line_at(s, from) == marker() {
        Some(from)
    } else if line_end(s, from) >= s.len() {
        None
    } else {
        closing_marker(s, line_end(s, from) + 1)
    }
}

#[via_fn]
proof fn closing_marker_decreases(s: Seq<char>, from: int) {
    if 0 <= from <= s.len() {
        lemma_first_index(s.skip(from), '\n');
    }
}

/// How a stored text is laid out.
pub enum Framing {
    /// The first line is not the marker: the whole text is the body.
    Plain,
    /// A marker line, the block, a second marker line, then the body, which
    /// starts at character `body`.
    Framed { block: Seq<char>, body: int },
    /// The first line is the marker and no later line is.
    Unterminated,
}

/// The layout of the stored text `s`.
pub open spec fn framing(s: Seq<char>) -> Framing {
    if line_at(s, 0) != marker() {
        Framing::Plain
    } else {
        match closing_marker(s, 4) {
            None => Framing::Unterminated,
            Some(q) => Framing::Framed {
                block: if q == 4 {
                    Seq::empty()
                } else {
                    s.subrange(4, q - 1)
                },
                body: if q + 4 <= s.len() {
                    q + 4
                } else {
                    s.len() as int
                },
            },
        }
    }
}

/// The metadata block of a stored text and where its body starts, both
/// counted in characters.
#[derive(Debug, PartialEq)]
pub struct Frame {
    pub block: String,
    pub body_offset: usize,
}

/// Whether `chars[from..to]` is the marker.
fn is_marker(chars: &Vec<char>, from: usize, to: usize) -> (r: bool)
    requires
        from <= to <= chars@.len(),
    ensures
        r == (chars@.subrange(from as int, to as int) == marker()),
{
    let r = to - from == 3 && chars[from] == '-' && chars[from + 1] == '-' && chars[from + 2]
        == '-';
    proof {
        let s = chars@.subrange(from as int, to as int);
        if r {
            assert(s =~= marker());
        } else if s.len() == 3 {
            assert(s[0] == chars@[from as int]);
            assert(s[1] == chars@[from + 1]);
            assert(s[2] == chars@[from + 2]);
        }
    }
    r
}

/// The start of the first marker line among the lines of `chars` that start
/// at `from` or later.
pub fn marker_line_from(chars: &Vec<char>, from: usize) -> (r: Option<usize>)
    requires
        from <= chars@.len(),
    ensures
        match r {
            Some(q) => closing_marker(chars@, from as int) == Some(q as int) && from <= q
                <= chars@.len(),
            None => closing_marker(chars@, from as int) is None,
        },
{
    let n = chars.len();
    let mut p: usize = from;
    loop
        invariant
            n == chars@.len(),
            from <= p <= n,
            closing_marker(chars@, from as int) == closing_marker(chars@, p as int),
        decreases n - p,
    {
        let len = find_char(chars, p, n, '\n');
        proof {
            assert(chars@.subrange(p as int, n as int) =~= chars@.skip(p as int));
            assert(line_end(chars@, p as int) == p + len);
            assert(line_at(chars@, p as int) == chars@.subrange(p as int, p + len));
        }
        if is_marker(chars, p, p + len) {
            return Some(p);
        }
        if len == n - p {
            return None;
        }
        p = p + len + 1;
    }
}

/// Finds the metadata block of a stored text.
///
/// `Ok(None)` when the first line is not the marker; an error when the first
/// line is the marker and no later line closes the block.
pub fn split_frontmatter(text: &str) -> (r: Result<Option<Frame>, StoreError>)
    ensures
        match framing(text@) {
            Framing::Plain => r == Ok::<Option<Frame>, StoreError>(None),
            Framing::Unterminated => r == Err::<Option<Frame>, StoreError>(
                StoreError::MalformedFrontmatter,
            ),
            Framing::Framed { block, body } => r is Ok && r->Ok_0 is Some && r->Ok_0->0.block@
                == block && r->Ok_0->0.body_offset == body && body <= text@.len(),
        },
{
    let chars = chars_of(text);
    let n = chars.len();
    proof {
        assert(text@.skip(0) =~= text@);
        assert(chars@.subrange(0, n as int) =~= text@);
    }
    let first_end = find_char(&chars, 0, n, '\n');
    if !is_marker(&chars, 0, first_end) {
        return Ok(None);
    }
    proof {
        assert(chars@.subrange(0, first_end as int).len() == 3);
    }
    if n < 4 {
        return Err(StoreError::MalformedFrontmatter);
    }
    match marker_line_from(&chars, 4) {
        Some(p) => {
            let block = if p == 4 {
                String::new()
            } else {
                String::from_str(text.substring_char(4, p - 1))
            };
            let body_offset: usize = if n - p >= 4 {
                p + 4
            } else {
                n
            };
            Ok(Some(Frame { block, body_offset }))
        },
        None => Err(StoreError::MalformedFrontmatter),
    }
}

/// Reads the metadata at the head of a stored text.
///
/// `parsed` is what reading the block of the text as a mapping gave: the
/// mapping, or the cause of the failure. It is looked at only when the text
/// has a block. Returns the metadata and the character at which the body
/// starts; a key that the mapping lacks gives the default, and a text
/// without a block has the default metadata and starts at 0.
pub fn decode(text: &str, parsed: Result<Mapping, String>) -> (r: Result<
    (Frontmatter, usize),
    StoreError,
>)
    ensures
        match framing(text@) {
            Framing::Plain => r is Ok && !r->Ok_0.0.favorite && r->Ok_0.0.tags@.len() == 0
                && r->Ok_0.1 == 0,
            Framing::Unterminated => r == Err::<(Frontmatter, usize), StoreError>(
                StoreError::MalformedFrontmatter,
            ),
            Framing::Framed { block, body } => match parsed {
                Ok(mapping) => r is Ok && read_as(mapping, r->Ok_0.0) && r->Ok_0.1 == body
                    && body <= text@.len(),
                Err(cause) => r == Err::<(Frontmatter, usize), StoreError>(
                    StoreError::FrontmatterParseError(cause),
                ),
            },
        },
{
    match split_frontmatter(text) {
        Err(e) => Err(e),
        Ok(None) => Ok((Frontmatter::new(), 0)),
        Ok(Some(frame)) => match parsed {
            Ok(mapping) => Ok((Frontmatter::from_mapping(mapping), frame.body_offset)),
            Err(cause) => Err(StoreError::FrontmatterParseError(cause)),
        },
    }
}

/// The stored form of a metadata block: the marker line, the block, the
/// marker line again.
pub fn encode(block: &str) -> (r: String)
    ensures
        r@ == marker().push('\n') + block@ + marker().push('\n'),
{
    proof {
        reveal_strlit("---\n");
        assert("---\n"@ =~= marker().push('\n'));
    }
    let mut out = String::from_str("---\n");
    out.append(block);
    out.append("---\n");
    out
}

/// What the medium told about one file of the store.
#[derive(Debug, PartialEq)]
pub struct FileFacts {
    /// The path of the file.
    pub path: String,
    /// Whether the path names a regular file.
    pub is_file: bool,
    /// The name of the file without its extension, where it has one that is
    /// text.
    pub stem: Option<String>,
    /// The seconds since the epoch at which the file was created and last
    /// modified, where the medium knows both.
    pub times: Option<(u64, u64)>,
    /// The text of the file, where it could be read.
    pub text: Option<String>,
}

/// Builds the entry that a file of the store holds.
///
/// `parsed` is what reading the metadata block of the text as a mapping
/// gave; it is looked at only when the text has a block, and a key that it
/// lacks gives the default. The checks come in a fixed
/// order: not a file, or a file whose text could not be read; no usable
/// stem; no timestamps; a block that does not end; a block that could not
/// be read. The first that fails names the error.
pub fn parse_entry(facts: FileFacts, parsed: Result<Mapping, String>) -> (r: Result<
    Entry,
    StoreError,
>)
    ensures
        (!facts.is_file || facts.text is None) ==> r == Err::<Entry, StoreError>(
            StoreError::NotAFile,
        ),
        facts.is_file && facts.text is Some && facts.stem is None ==> r == Err::<
            Entry,
            StoreError,
        >(StoreError::UnreadableTitle),
        facts.is_file && facts.text is Some && facts.stem is Some && facts.times is None ==> r
            == Err::<Entry, StoreError>(StoreError::MetadataUnavailable),
        facts.is_file && facts.text is Some && facts.stem is Some && facts.times is Some
            ==> match framing(facts.text->0@) {
            Framing::Unterminated => r == Err::<Entry, StoreError>(
                StoreError::MalformedFrontmatter,
            ),
            Framing::Plain => r is Ok && entry_holds(
                r->Ok_0,
                facts,
                false,
                Seq::empty(),
                facts.text->0@,
            ),
            Framing::Framed { block, body } => match parsed {
                Err(cause) => r == Err::<Entry, StoreError>(
                    StoreError::FrontmatterParseError(cause),
                ),
                Ok(mapping) => r is Ok && entry_holds(
                    r->Ok_0,
                    facts,
                    favorite_of(mapping),
                    tags_of(mapping),
                    facts.text->0@.skip(body),
                ),
            },
        },
{
    let FileFacts { path, is_file, stem, times, text } = facts;
    if !is_file {
        return Err(StoreError::NotAFile);
    }
    let text = match text {
        Some(t) => t,
        None => {
            return Err(StoreError::NotAFile);
        },
    };
    let title = match stem {
        Some(t) => t,
        None => {
            return Err(StoreError::UnreadableTitle);
        },
    };
    let (created_at, modified_at) = match times {
        Some(pair) => pair,
        None => {
            return Err(StoreError::MetadataUnavailable);
        },
    };
    let (frontmatter, start) = match decode(text.as_str(), parsed) {
        Ok(pair) => pair,
        Err(e) => {
            return Err(e);
        },
    };
    let length = text.as_str().unicode_len();
    proof {
        assert(text@.skip(0) =~= text@);
        assert(text@.subrange(start as int, length as int) =~= text@.skip(start as int));
        if framing(text@) is Plain {
            assert(frontmatter.tags@ =~= Seq::<String>::empty());
        }
    }
    let content = String::from_str(text.as_str().substring_char(start, length));
    Ok(
        Entry {
            identifier: Identifier::File(path),
            title,
            content,
            favorite: frontmatter.favorite,
            tags: frontmatter.tags,
            created_at,
            modified_at,
        },
    )
}

/// Whether `e` is the entry of the file that `facts` describes, with the
/// given metadata and body.
pub open spec fn entry_holds(
    e: Entry,
    facts: FileFacts,
    favorite: bool,
    tags: Seq<String>,
    body: Seq<char>,
) -> bool {
    &&& e.identifier == Identifier::File(facts.path)
    &&& facts.stem == Some(e.title)
    &&& e.content@ == body
    &&& e.favorite == favorite
    &&& e.tags@ == tags
    &&& facts.times == Some((e.created_at, e.modified_at))
}

/// The test "was read".
pub open spec fn was_read() -> spec_fn(Result<Entry, StoreError>) -> bool {
    |o: Result<Entry, StoreError>| o is Ok
}

/// The test "failed".
pub open spec fn has_failed() -> spec_fn(Result<Entry, StoreError>) -> bool {
    |o: Result<Entry, StoreError>| o is Err
}

/// The entries among the outcomes of a scan, in order.
pub open spec fn successes(outcomes: Seq<Result<Entry, StoreError>>) -> Seq<Entry> {
    outcomes.filter(was_read()).map_values(|o: Result<Entry, StoreError>| o->Ok_0)
}

/// The errors among the outcomes of a scan, in order.
pub open spec fn failures(outcomes: Seq<Result<Entry, StoreError>>) -> Seq<StoreError> {
    outcomes.filter(has_failed()).map_values(|o: Result<Entry, StoreError>| o->Err_0)
}

/// The entries of one store, as the last scan found them.
#[derive(Debug)]
pub struct Database {
    /// The pattern that the files of the store match.
    path_str: String,
    pub entries: Vec<Entry>,
}

/// The pattern for the entry files under the directory `root`.
pub open spec fn pattern_under(root: Seq<char>) -> Seq<char> {
    if root.len() == 0 || root.last() == '/' {
        root + "**/*.md"@
    } else {
        root + "/**/*.md"@
    }
}

impl Database {
    /// The pattern that the files of the store match.
    pub closed spec fn pattern(&self) -> Seq<char> {
        self.path_str@
    }

    /// The entries that the store holds.
    pub closed spec fn stored(&self) -> Seq<Entry> {
        self.entries@
    }

    /// An empty store over the directory `thoughts_path`.
    pub fn new(thoughts_path: String) -> (r: Database)
        ensures
            r.pattern() == pattern_under(thoughts_path@),
            r.stored().len() == 0,
    {
        let chars = chars_of(thoughts_path.as_str());
        let bare = chars.len() == 0 || chars[chars.len() - 1] == '/';
        let mut path_str = thoughts_path;
        if bare {
            path_str.append("**/*.md");
        } else {
            path_str.append("/**/*.md");
        }
        Database { path_str, entries: Vec::new() }
    }

    /// The pattern that the files of the store match.
    pub fn path_pattern(&self) -> (r: &str)
        ensures
            r@ == self.pattern(),
    {
        self.path_str.as_str()
    }

    /// Replaces the entries of the store by those that a scan read. An
    /// outcome that is an error is skipped and handed back; it never stops
    /// the scan.
    pub fn poll(&mut self, outcomes: Vec<Result<Entry, StoreError>>) -> (r: Vec<StoreError>)
        ensures
            polled(*old(self), outcomes@, *final(self)),
            r@ == failures(outcomes@),
    {
        self.entries.clear();
        let mut skipped: Vec<StoreError> = Vec::new();
        let ghost all = outcomes@;
        proof {
            lemma_outcomes_empty();
            assert(all.take(0) =~= Seq::empty());
        }
        for outcome in it: outcomes
            invariant
                it.seq() == all,
                self.entries@ == successes(all.take(it.index() as int)),
                skipped@ == failures(all.take(it.index() as int)),
                self.path_str == old(self).path_str,
        {
            proof {
                let k = it.index() as int;
                lemma_outcomes_push(all.take(k), outcome);
                assert(all.take(k + 1) =~= all.take(k).push(outcome));
            }
            match outcome {
                Ok(entry) => {
                    self.entries.push(entry);
                },
                Err(e) => {
                    skipped.push(e);
                },
            }
        }
        proof {
            assert(all.take(all.len() as int) =~= all);
        }
        skipped
    }

    /// The stored text of an entry: the metadata block `block` between two
    /// marker lines, then the content of the entry. The block has to be made
    /// of whole lines none of which is the marker, or the text would not
    /// read back: any other block is refused as malformed. What is written
    /// reads back as the block, less its last line feed, and the content.
    pub fn write_entry(&self, entry: &Entry, block: &str) -> (r: Result<String, StoreError>)
        ensures
            match r {
                Ok(text) => is_block(block@) && text@ == document(block@, entry.content@)
                    && framing(text@) == (Framing::Framed {
                    block: block_lines(block@),
                    body: 8 + block@.len() as int,
                }) && text@.skip(8 + block@.len() as int) == entry.content@,
                Err(e) => !is_block(block@) && e == StoreError::MalformedFrontmatter,
            },
    {
        if !check_block(block) {
            return Err(StoreError::MalformedFrontmatter);
        }
        let mut output = encode(block);
        output.append(entry.content.as_str());
        proof {
            law_document_round_trip(block@, entry.content@);
        }
        Ok(output)
    }
}

/// Whether `block` is made of whole lines none of which is the marker.
pub fn check_block(block: &str) -> (r: bool)
    ensures
        r == is_block(block@),
{
    let chars = chars_of(block);
    let whole = chars.len() == 0 || chars[chars.len() - 1] == '\n';
    whole && marker_line_from(&chars, 0).is_none()
}

/// A scan that read nothing has neither entries nor errors.
pub proof fn lemma_outcomes_empty()
    ensures
        successes(Seq::empty()) == Seq::<Entry>::empty(),
        failures(Seq::empty()) == Seq::<StoreError>::empty(),
{
    reveal(Seq::filter);
    let none = Seq::<Result<Entry, StoreError>>::empty();
    assert(none.filter(was_read()) =~= none);
    assert(none.filter(has_failed()) =~= none);
    assert(successes(none) =~= Seq::<Entry>::empty());
    assert(failures(none) =~= Seq::<StoreError>::empty());
}

/// One more outcome adds its entry to the successes, or its error to the
/// failures, and leaves the other list as it was.
pub proof fn lemma_outcomes_push(
    outcomes: Seq<Result<Entry, StoreError>>,
    outcome: Result<Entry, StoreError>,
)
    ensures
        successes(outcomes.push(outcome)) == match outcome {
            Ok(e) => successes(outcomes).push(e),
            Err(_) => successes(outcomes),
        },
        failures(outcomes.push(outcome)) == match outcome {
            Ok(_) => failures(outcomes),
            Err(e) => failures(outcomes).push(e),
        },
{
    outcomes.lemma_filter_push(outcome, was_read());
    outcomes.lemma_filter_push(outcome, has_failed());
    match outcome {
        Ok(e) => {
            assert(successes(outcomes.push(outcome)) =~= successes(outcomes).push(e));
        },
        Err(e) => {
            assert(failures(outcomes.push(outcome)) =~= failures(outcomes).push(e));
        },
    }
}

/// Whether no entry before position `i` carries the identifier.
pub open spec fn unknown_before(entries: Seq<Entry>, identifier: Identifier, i: int) -> bool {
    forall|j: int| 0 <= j < i && j < entries.len() ==> !same_identifier(
        (#[trigger] entries[j]).identifier,
        identifier,
    )
}

/// Whether position `i` holds the first entry that carries the identifier.
pub open spec fn first_known_at(entries: Seq<Entry>, identifier: Identifier, i: int) -> bool {
    &&& 0 <= i < entries.len()
    &&& same_identifier(entries[i].identifier, identifier)
    &&& unknown_before(entries, identifier, i)
}

/// Whether no two entries carry the same identifier.
pub open spec fn distinct_identifiers(entries: Seq<Entry>) -> bool {
    forall|i: int, j: int|
        0 <= i < j < entries.len() ==> !same_identifier(
            (#[trigger] entries[i]).identifier,
            (#[trigger] entries[j]).identifier,
        )
}

/// The later of the two modification times: a write never moves the time
/// of an entry back.
pub open spec fn later(a: u64, b: u64) -> u64 {
    if a >= b {
        a
    } else {
        b
    }
}

/// The name of the next backup in a directory that holds `count` backups
/// already.
pub open spec fn backup_name_text(count: u64, suffix: Seq<char>) -> Seq<char> {
    "backup"@ + decimal_text(count as nat) + suffix
}

/// The name of the next backup in a directory that holds `count` backups
/// already: the word `backup`, the count, the suffix.
pub fn backup_name(count: u64, suffix: &str) -> (r: String)
    ensures
        r@ == backup_name_text(count, suffix@),
{
    let mut name = String::from_str("backup");
    name.append(decimal(count).as_str());
    name.append(suffix);
    name
}

impl Database {
    /// The position of the first entry that carries the identifier.
    pub fn find_entry(&self, identifier: &Identifier) -> (r: Option<usize>)
        ensures
            match r {
                Some(i) => first_known_at(self.stored(), *identifier, i as int),
                None => unknown_before(self.stored(), *identifier, self.stored().len() as int),
            },
    {
        let mut i: usize = 0;
        while i < self.entries.len()
            invariant
                0 <= i <= self.entries@.len(),
                unknown_before(self.entries@, *identifier, i as int),
            decreases self.entries@.len() - i,
        {
            if self.entries[i].identifier.is(identifier) {
                return Some(i);
            }
            i += 1;
        }
        None
    }

    /// Takes the first entry that carries the identifier out of the store.
    /// Fails with `NotFound`, and changes nothing, when no entry carries it.
    pub fn delete_entry(&mut self, identifier: &Identifier) -> (r: Result<Entry, StoreError>)
        ensures
            final(self).pattern() == old(self).pattern(),
            distinct_identifiers(old(self).stored()) ==> distinct_identifiers(final(self).stored()),
            match r {
                Ok(e) => exists|i: int|
                    first_known_at(old(self).stored(), *identifier, i) && e == old(self).stored()[i] && final(self).stored() == old(self).stored().remove(i),
                Err(error) => error == StoreError::NotFound && unknown_before(
                    old(self).stored(),
                    *identifier,
                    old(self).stored().len() as int,
                ) && final(self).stored() == old(self).stored(),
            },
    {
        match self.find_entry(identifier) {
            Some(i) => {
                let e = self.entries.remove(i);
                proof {
                    assert(first_known_at(old(self).stored(), *identifier, i as int));
                    lemma_remove_keeps_distinct(old(self).stored(), i as int);
                }
                Ok(e)
            },
            None => Err(StoreError::NotFound),
        }
    }

    /// Writes an entry into the store: in place of the first entry that
    /// carries its identifier, else after the last entry. An entry that is
    /// replaced hands its modification time on where that is the later one.
    /// Returns the position written.
    pub fn put_entry(&mut self, entry: Entry) -> (r: usize)
        ensures
            final(self).pattern() == old(self).pattern(),
            distinct_identifiers(old(self).stored()) ==> distinct_identifiers(final(self).stored()),
            first_known_at(old(self).stored(), entry.identifier, r as int) ==> final(self).stored() == old(self).stored().update(
                r as int,
                (Entry {
                    modified_at: later(entry.modified_at, old(self).stored()[r as int].modified_at),
                    ..entry
                }),
            ),
            !first_known_at(old(self).stored(), entry.identifier, r as int) ==> unknown_before(
                old(self).stored(),
                entry.identifier,
                old(self).stored().len() as int,
            ) && r == old(self).stored().len() && final(self).stored() == old(self).stored().push(entry),
    {
        match self.find_entry(&entry.identifier) {
            Some(i) => {
                let previous = self.entries.remove(i);
                let modified_at = if entry.modified_at >= previous.modified_at {
                    entry.modified_at
                } else {
                    previous.modified_at
                };
                let Entry { identifier, title, content, favorite, tags, created_at, modified_at: _ } =
                    entry;
                self.entries.insert(
                    i,
                    Entry { identifier, title, content, favorite, tags, created_at, modified_at },
                );
                proof {
                    assert(self.entries@ =~= old(self).stored().update(
                        i as int,
                        (Entry {
                            modified_at: later(
                                entry.modified_at,
                                old(self).stored()[i as int].modified_at,
                            ),
                            ..entry
                        }),
                    ));
                    lemma_replace_keeps_distinct(
                        old(self).stored(),
                        i as int,
                        self.entries@[i as int],
                    );
                }
                i
            },
            None => {
                let at = self.entries.len();
                self.entries.push(entry);
                proof {
                    lemma_push_keeps_distinct(old(self).stored(), entry);
                }
                at
            },
        }
    }
}

/// Taking an entry out leaves distinct identifiers distinct.
proof fn lemma_remove_keeps_distinct(entries: Seq<Entry>, i: int)
    requires
        0 <= i < entries.len(),
    ensures
        distinct_identifiers(entries) ==> distinct_identifiers(entries.remove(i)),
{
    let rest = entries.remove(i);
    if distinct_identifiers(entries) {
        assert forall|a: int, b: int| 0 <= a < b < rest.len() implies !same_identifier(
            (#[trigger] rest[a]).identifier,
            (#[trigger] rest[b]).identifier,
        ) by {
            let x = if a < i {
                a
            } else {
                a + 1
            };
            let y = if b < i {
                b
            } else {
                b + 1
            };
            assert(rest[a] == entries[x] && rest[b] == entries[y]);
        }
    }
}

/// Replacing an entry by one of the same identifier leaves distinct
/// identifiers distinct.
proof fn lemma_replace_keeps_distinct(entries: Seq<Entry>, i: int, e: Entry)
    requires
        0 <= i < entries.len(),
        same_identifier(entries[i].identifier, e.identifier),
    ensures
        distinct_identifiers(entries) ==> distinct_identifiers(entries.update(i, e)),
{
    let next = entries.update(i, e);
    if distinct_identifiers(entries) {
        assert forall|a: int, b: int| 0 <= a < b < next.len() implies !same_identifier(
            (#[trigger] next[a]).identifier,
            (#[trigger] next[b]).identifier,
        ) by {
            assert(!same_identifier(entries[a].identifier, entries[b].identifier));
        }
    }
}

/// Adding an entry whose identifier is unknown leaves distinct identifiers
/// distinct.
proof fn lemma_push_keeps_distinct(entries: Seq<Entry>, e: Entry)
    requires
        unknown_before(entries, e.identifier, entries.len() as int),
    ensures
        distinct_identifiers(entries) ==> distinct_identifiers(entries.push(e)),
{
    let next = entries.push(e);
    if distinct_identifiers(entries) {
        assert forall|a: int, b: int| 0 <= a < b < next.len() implies !same_identifier(
            (#[trigger] next[a]).identifier,
            (#[trigger] next[b]).identifier,
        ) by {
            if b < entries.len() {
                assert(!same_identifier(entries[a].identifier, entries[b].identifier));
            } else {
                assert(!same_identifier(entries[a].identifier, e.identifier));
            }
        }
    }
}

/// A directory never gets two backups of one name: the names for two
/// different counts differ.
pub proof fn law_backup_names_differ(count: u64, other: u64, suffix: Seq<char>)
    requires
        count != other,
    ensures
        backup_name_text(count, suffix) != backup_name_text(other, suffix),
{
    let a = decimal_text(count as nat);
    let b = decimal_text(other as nat);
    lemma_decimal_distinct(count as nat, other as nat);
    let x = backup_name_text(count, suffix);
    let y = backup_name_text(other, suffix);
    let k = "backup"@.len() as int;
    if x == y {
        assert(x.len() == k + a.len() + suffix.len());
        assert(y.len() == k + b.len() + suffix.len());
        assert(a.len() == b.len());
        assert forall|i: int| 0 <= i < a.len() implies a[i] == b[i] by {
            assert(x[k + i] == a[i]);
            assert(y[k + i] == b[i]);
        }
        assert(a =~= b);
    }
}

/// A scan of any number of readable files and one file that fails, at any
/// place among them, gives exactly the entries of the readable files, in
/// their order, and hands back the one error.
pub proof fn law_scan_skips_failure(valid: Seq<Entry>, place: int, error: StoreError)
    requires
        0 <= place <= valid.len(),
    ensures
        successes(
            valid.map_values(|e: Entry| Ok::<Entry, StoreError>(e)).insert(
                place,
                Err::<Entry, StoreError>(error),
            ),
        ) == valid,
        failures(
            valid.map_values(|e: Entry| Ok::<Entry, StoreError>(e)).insert(
                place,
                Err::<Entry, StoreError>(error),
            ),
        ) == seq![error],
{
    let read = valid.map_values(|e: Entry| Ok::<Entry, StoreError>(e));
    let bad = Err::<Entry, StoreError>(error);
    let head = read.subrange(0, place);
    let tail = read.subrange(place, read.len() as int);
    let all = read.insert(place, bad);
    assert(all =~= head.push(bad) + tail);
    Seq::filter_distributes_over_add(head.push(bad), tail, was_read());
    Seq::filter_distributes_over_add(head.push(bad), tail, has_failed());
    head.lemma_filter_push(bad, was_read());
    head.lemma_filter_push(bad, has_failed());
    lemma_filter_all_read(head);
    lemma_filter_all_read(tail);
    assert(head + tail =~= read);
    assert(successes(all) =~= valid);
    assert(failures(all) =~= seq![error]);
}

/// Among outcomes that are all entries, every one was read and none failed.
proof fn lemma_filter_all_read(outcomes: Seq<Result<Entry, StoreError>>)
    requires
        forall|i: int| 0 <= i < outcomes.len() ==> (#[trigger] outcomes[i]) is Ok,
    ensures
        outcomes.filter(was_read()) == outcomes,
        outcomes.filter(has_failed()) == Seq::<Result<Entry, StoreError>>::empty(),
    decreases outcomes.len(),
{
    reveal(Seq::filter);
    if outcomes.len() > 0 {
        let front = outcomes.drop_last();
        assert forall|i: int| 0 <= i < front.len() implies (#[trigger] front[i]) is Ok by {
            assert(front[i] == outcomes[i]);
        }
        lemma_filter_all_read(front);
        assert(outcomes.last() == outcomes[outcomes.len() - 1]);
        assert(front.push(outcomes.last()) =~= outcomes);
    }
}

/// What `poll` does to a store: the entries become those that the scan read,
/// the pattern stays.
pub open spec fn polled(
    before: Database,
    outcomes: Seq<Result<Entry, StoreError>>,
    after: Database,
) -> bool {
    after.stored() == successes(outcomes) && after.pattern() == before.pattern()
}

/// Scanning an unchanged store again changes nothing: a second scan that
/// reads the same outcomes leaves the entries and the pattern of the first.
pub proof fn law_scan_twice(
    before: Database,
    between: Database,
    after: Database,
    outcomes: Seq<Result<Entry, StoreError>>,
)
    requires
        polled(before, outcomes, between),
        polled(between, outcomes, after),
    ensures
        after.stored() == between.stored(),
        after.pattern() == between.pattern(),
{
}

/// The stored text of an entry: marker line, block, marker line, content.
pub open spec fn document(block: Seq<char>, content: Seq<char>) -> Seq<char> {
    marker().push('\n') + block + marker().push('\n') + content
}

/// The block without the line feed that ends its last line.
pub open spec fn block_lines(block: Seq<char>) -> Seq<char> {
    if block.len() == 0 {
        block
    } else {
        block.drop_last()
    }
}

/// Whether `block` is made of whole lines none of which is the marker.
pub open spec fn is_block(block: Seq<char>) -> bool {
    &&& block.len() == 0 || block.last() == '\n'
    &&& closing_marker(block, 0) is None
}

/// From any line of the block on, the first marker line of the stored text
/// is the one that follows the block.
proof fn lemma_closing_marker_of_document(block: Seq<char>, content: Seq<char>, p: int)
    requires
        block.len() == 0 || block.last() == '\n',
        0 <= p <= block.len(),
        closing_marker(block, p) is None,
    ensures
        closing_marker(document(block, content), 4 + p) == Some(4 + block.len() as int),
    decreases block.len() - p,
{
    let doc = document(block, content);
    let rest = doc.skip(4 + p);
    if p == block.len() {
        assert(rest[0] == '-' && rest[1] == '-' && rest[2] == '-' && rest[3] == '\n');
        assert forall|i: int| 0 <= i < 3 implies #[trigger] rest[i] != '\n' by {}
        lemma_first_index_is(rest, '\n', 3);
        assert(line_at(doc, 4 + p) =~= marker());
    } else {
        let tail = block.skip(p);
        lemma_first_index(tail, '\n');
        let e = first_index(tail, '\n');
        assert(tail[tail.len() - 1] == '\n');
        assert(e < tail.len());
        assert forall|i: int| 0 <= i < e implies #[trigger] rest[i] != '\n' by {
            assert(rest[i] == tail[i]);
        }
        assert(rest[e] == tail[e]);
        lemma_first_index_is(rest, '\n', e);
        assert(line_at(doc, 4 + p) =~= line_at(block, p));
        lemma_closing_marker_of_document(block, content, p + e + 1);
    }
}

/// Reading back what `write_entry` wrote finds what was written: the block,
/// less the line feed that ends it, and the content, which starts right
/// after the second marker line. This holds for any block of whole lines
/// none of which is the marker.
pub proof fn law_document_round_trip(block: Seq<char>, content: Seq<char>)
    requires
        is_block(block),
    ensures
        framing(document(block, content)) == (Framing::Framed {
            block: block_lines(block),
            body: 8 + block.len() as int,
        }),
        document(block, content).skip(8 + block.len() as int) == content,
{
    let doc = document(block, content);
    let whole = doc.skip(0);
    assert(whole[0] == '-' && whole[1] == '-' && whole[2] == '-' && whole[3] == '\n');
    assert forall|i: int| 0 <= i < 3 implies #[trigger] whole[i] != '\n' by {}
    lemma_first_index_is(whole, '\n', 3);
    assert(line_at(doc, 0) =~= marker());
    lemma_closing_marker_of_document(block, content, 0);
    let q = 4 + block.len() as int;
    assert(doc.len() == 8 + block.len() + content.len());
    if block.len() > 0 {
        assert(doc.subrange(4, q - 1) =~= block.drop_last());
    } else {
        assert(block =~= Seq::<char>::empty());
    }
    assert(closing_marker(doc, 4) == Some(q));
    assert(doc.skip(8 + block.len() as int) =~= content);
}

/// The name under which to write the next backup. `existing` is the number
/// of backups that the target directory holds, or `None` where the directory
/// could not be read, which is a failure of the backup.
pub fn plan_backup(existing: Option<u64>, suffix: &str) -> (r: Result<String, StoreError>)
    ensures
        match existing {
            Some(count) => r is Ok && r->Ok_0@ == backup_name_text(count, suffix@),
            None => r == Err::<String, StoreError>(StoreError::BackupIoFailure),
        },
{
    match existing {
        Some(count) => Ok(backup_name(count, suffix)),
        None => Err(StoreError::BackupIoFailure),
    }
}

} // verus!
