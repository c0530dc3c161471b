//! HTTP/1.1 messages: request heads, chunked bodies and responses.

use vstd::prelude::*;
use vstd::utf8;
use crate::agent_api::MEDIA_TYPE_JSON;
use crate::bytes;
use crate::json;
use crate::text;

verus! {

/// The most bytes that a request head may have.
pub const MAX_HEAD: usize = 16_384;

/// The most bytes that a request body may have.
pub const MAX_BODY: usize = 1_048_576;

/// The most bytes that a line of a chunked body may have.
pub const MAX_LINE: usize = 1_024;

/// Whether the bytes end with `tail`.
pub open spec fn ends(s: Seq<u8>, tail: Seq<u8>) -> bool {
    s.len() >= tail.len() && s.skip(s.len() - tail.len()) == tail
}

fn ends_with(s: &[u8], tail: &[u8]) -> (r: bool)
    ensures
        r == ends(s@, tail@),
{
    if s.len() < tail.len() {
        return false;
    }
    let from: usize = s.len() - tail.len();
    let end = &s[from..s.len()];
    assert(end@ =~= s@.skip(s@.len() - tail@.len()));
    bytes::same_bytes(end, tail)
}

/// How far the reading of a head or of a line has come.
#[derive(Clone, Copy, Debug, PartialEq, Eq, Structural)]
pub enum Progress {
    More,
    Complete,
    TooLong,
}

/// How far a head is: complete with its empty line, or too long.
pub open spec fn head_state(head: Seq<u8>) -> Progress {
    if ends(head, seq![13u8, 10u8, 13u8, 10u8]) {
        Progress::Complete
    } else if head.len() > MAX_HEAD {
        Progress::TooLong
    } else {
        Progress::More
    }
}

/// How far a head is.
pub fn head_progress(head: &[u8]) -> (r: Progress)
    ensures
        r == head_state(head@),
{
    let end: [u8; 4] = [13, 10, 13, 10];
    assert(end@ =~= seq![13u8, 10u8, 13u8, 10u8]);
    if ends_with(head, &end) {
        Progress::Complete
    } else if head.len() > MAX_HEAD {
        Progress::TooLong
    } else {
        Progress::More
    }
}

/// The name and the value of header fields.
pub open spec fn field_views(v: Seq<(String, String)>) -> Seq<(Seq<char>, Seq<char>)> {
    v.map_values(|f: (String, String)| (f.0@, f.1@))
}

/// The value of the first field with this name, whatever its case.
pub open spec fn field(fields: Seq<(Seq<char>, Seq<char>)>, name: Seq<char>) -> Option<Seq<char>>
    decreases fields.len(),
{
    if fields.len() == 0 {
        None
    } else if text::same_folded(fields[0].0, name) {
        Some(fields[0].1)
    } else {
        field(fields.drop_first(), name)
    }
}

/// A request. Its body is read apart from its head.
#[derive(Debug)]
pub struct Request {
    pub method: String,
    pub path: String,
    pub query: String,
    pub headers: Vec<(String, String)>,
    pub body: Vec<u8>,
    pub keep_alive: bool,
    /// How the qualities in the `Accept` field rank, one number for each of its items: the bit
    /// pattern of the single-precision number that the quality reads as, or zero where that is
    /// not positive.
    pub ranks: Vec<u32>,
}

/// What a request says.
pub struct RequestView {
    pub method: Seq<char>,
    pub path: Seq<char>,
    pub query: Seq<char>,
    pub headers: Seq<(Seq<char>, Seq<char>)>,
    pub body: Seq<u8>,
    pub keep_alive: bool,
    pub ranks: Seq<u32>,
}

impl View for Request {
    type V = RequestView;

    open spec fn view(&self) -> RequestView {
        RequestView {
            method: self.method@,
            path: self.path@,
            query: self.query@,
            headers: field_views(self.headers@),
            body: self.body@,
            keep_alive: self.keep_alive,
            ranks: self.ranks@,
        }
    }
}

/// The value of a query parameter as it is meant: a plus sign stands for a space, and the escapes
/// of an equals sign and of a plus sign stand for these.
pub open spec fn query_decoded(v: Seq<char>) -> Seq<char> {
    text::replaced(
        text::replaced(text::replaced(v, seq!['+'], seq![' ']), seq!['%', '3', 'D'], seq!['=']),
        seq!['%', '2', 'B'],
        seq!['+'],
    )
}

/// The value of the first parameter with this name among the pairs of a query.
pub open spec fn parameter(pairs: Seq<Seq<char>>, name: Seq<char>) -> Option<Seq<char>>
    decreases pairs.len(),
{
    if pairs.len() == 0 {
        None
    } else {
        match text::split_once(pairs[0], '=') {
            Some((k, v)) => if k == name {
                Some(query_decoded(v))
            } else {
                parameter(pairs.drop_first(), name)
            },
            None => parameter(pairs.drop_first(), name),
        }
    }
}

/// Why a head cannot be read.
#[derive(Clone, Copy, Debug, PartialEq, Eq, Structural)]
pub enum HeadError {
    Method,
    Target,
}

/// The fields in the lines of a head: names in lower case, names and values without the space
/// around them. A line without a colon is skipped.
pub open spec fn fields_in(lines: Seq<Seq<char>>) -> Seq<(Seq<char>, Seq<char>)>
    decreases lines.len(),
{
    if lines.len() == 0 {
        Seq::empty()
    } else {
        let before = fields_in(lines.drop_last());
        match text::split_once(lines.last(), ':') {
            Some((name, value)) => before.push(
                (text::lowered(text::trimmed(name)), text::trimmed(value)),
            ),
            None => before,
        }
    }
}

/// Whether the connection stays open: as the `Connection` field says, else as is usual for the
/// version.
pub open spec fn stays_open(
    fields: Seq<(Seq<char>, Seq<char>)>,
    version: Seq<char>,
) -> bool {
    match field(fields, "connection"@) {
        Some(v) => if text::lowered(v) == "close"@ {
            false
        } else if text::lowered(v) == "keep-alive"@ {
            true
        } else {
            version == "HTTP/1.1"@
        },
        None => version == "HTTP/1.1"@,
    }
}

/// The request that a head says.
pub open spec fn parsed_head(head: Seq<char>) -> Result<RequestView, HeadError> {
    let lines = text::lines(head);
    let words = text::words(lines[0]);
    let fields = fields_in(lines.drop_first());
    if words.len() == 0 {
        Err(HeadError::Method)
    } else if words.len() == 1 {
        Err(HeadError::Target)
    } else {
        let version = if words.len() > 2 {
            words[2]
        } else {
            "HTTP/1.1"@
        };
        Ok(
            RequestView {
                method: words[0],
                path: text::before(words[1], '?'),
                query: match text::split_once(words[1], '?') {
                    Some((_, query)) => query,
                    None => Seq::empty(),
                },
                headers: fields,
                body: Seq::empty(),
                keep_alive: stays_open(fields, version),
                ranks: Seq::empty(),
            },
        )
    }
}

/// How the body of a request is to be read.
#[derive(Clone, Copy, Debug, PartialEq, Eq, Structural)]
pub enum BodyPlan {
    Nothing,
    Bytes(usize),
    Chunked,
}

/// Why a body cannot be read.
#[derive(Clone, Copy, Debug, PartialEq, Eq, Structural)]
pub enum BodyError {
    /// The length is no number.
    Length,
    /// The length of a chunk is no number.
    ChunkSize,
    TooLarge,
    LineTooLong,
    /// Neither a length nor chunks.
    Unframed,
}

impl RequestView {
    /// The value of the first header with this name, whatever its case.
    pub open spec fn header(self, name: Seq<char>) -> Option<Seq<char>> {
        field(self.headers, name)
    }

    /// The value of a query parameter.
    pub open spec fn query_param(self, name: Seq<char>) -> Option<Seq<char>> {
        parameter(text::split(self.query, '&'), name)
    }

    /// Whether a header has this value, whatever its case.
    pub open spec fn header_is(self, name: Seq<char>, value: Seq<char>) -> bool {
        match self.header(name) {
            Some(v) => text::same_folded(v, value),
            None => false,
        }
    }

    /// Whether the body comes in chunks.
    pub open spec fn chunked(self) -> bool {
        match self.header("transfer-encoding"@) {
            Some(v) => text::text_contains(text::lowered(v), "chunked"@),
            None => false,
        }
    }

    /// The length of the body; an error where it is no number.
    pub open spec fn declared_length(self) -> Result<Option<usize>, BodyError> {
        match self.header("content-length"@) {
            Some(v) => match text::parsed_number(v, 10, usize::MAX as nat) {
                Some(n) => Ok(Some(n as usize)),
                None => Err(BodyError::Length),
            },
            None => Ok(None),
        }
    }

    /// How the body is to be read. That of a talk upload is left where it is.
    pub open spec fn body_plan(self) -> Result<BodyPlan, BodyError> {
        if self.path == "/v1/talk"@ {
            Ok(BodyPlan::Nothing)
        } else {
            match self.declared_length() {
                Err(e) => Err(e),
                Ok(Some(n)) => if n <= MAX_BODY {
                    Ok(BodyPlan::Bytes(n))
                } else {
                    Err(BodyError::TooLarge)
                },
                Ok(None) => if self.chunked() {
                    Ok(BodyPlan::Chunked)
                } else {
                    Ok(BodyPlan::Nothing)
                },
            }
        }
    }
}

fn find_field<'a>(fields: &'a Vec<(String, String)>, name: &str) -> (r: Option<&'a str>)
    ensures
        match r {
            Some(v) => field(field_views(fields@), name@) == Some(v@),
            None => field(field_views(fields@), name@) is None,
        },
{
    let ghost all = field_views(fields@);
    let mut i: usize = 0;
    assert(all.skip(0) =~= all);
    while i < fields.len()
        invariant
            i <= fields@.len(),
            all == field_views(fields@),
            field(all, name@) == field(all.skip(i as int), name@),
        decreases fields@.len() - i,
    {
        assert(all.skip(i as int).drop_first() =~= all.skip(i + 1));
        assert(all.skip(i as int)[0] == (fields@[i as int].0@, fields@[i as int].1@));
        if text::text_folded_equal(fields[i].0.as_str(), name) {
            return Some(fields[i].1.as_str());
        }
        i = i + 1;
    }
    assert(all.skip(i as int) =~= Seq::empty());
    None
}

fn decode_query(v: &[char]) -> (r: String)
    ensures
        r@ == query_decoded(v@),
{
    let equals: [char; 3] = ['%', '3', 'D'];
    let plus: [char; 3] = ['%', '2', 'B'];
    assert(equals@ =~= seq!['%', '3', 'D']);
    assert(plus@ =~= seq!['%', '2', 'B']);
    assert(['=']@ =~= seq!['=']);
    assert(['+']@ =~= seq!['+']);
    assert([' ']@ =~= seq![' ']);
    let first = text::replace(v, &['+'], &[' ']);
    let second = text::replace(&first, &equals, &['=']);
    let third = text::replace(&second, &plus, &['+']);
    text::text_of(&third)
}

/// The fields in the lines of a head behind the first one.
fn read_fields(lines: &Vec<&[char]>) -> (r: Vec<(String, String)>)
    requires
        lines@.len() > 0,
    ensures
        field_views(r@) == fields_in(text::slice_views(lines@).drop_first()),
{
    let ghost all = text::slice_views(lines@);
    let ghost rest = all.drop_first();
    let mut out: Vec<(String, String)> = Vec::new();
    let mut i: usize = 1;
    assert(rest.take(0) =~= Seq::empty());
    assert(field_views(out@) =~= Seq::empty());
    while i < lines.len()
        invariant
            1 <= i <= lines@.len(),
            all == text::slice_views(lines@),
            rest == all.drop_first(),
            field_views(out@) == fields_in(rest.take(i - 1)),
        decreases lines@.len() - i,
    {
        proof {
            assert(rest.take(i as int).drop_last() =~= rest.take(i - 1));
            assert(rest.take(i as int).last() == lines@[i as int]@);
        }
        let ghost before = field_views(out@);
        if let Some((name, value)) = text::split_pair(lines[i], ':') {
            let key = text::text_of(&text::lower_chars(text::trim(name)));
            let content = text::text_of(text::trim(value));
            out.push((key, content));
            assert(field_views(out@) =~= before.push(
                (text::lowered(text::trimmed(name@)), text::trimmed(value@)),
            ));
        }
        i = i + 1;
    }
    assert(rest.take(i - 1) =~= rest);
    out
}

impl Request {
    pub fn header(&self, name: &str) -> (r: Option<&str>)
        ensures
            match r {
                Some(v) => self@.header(name@) == Some(v@),
                None => self@.header(name@) is None,
            },
    {
        find_field(&self.headers, name)
    }

    /// The first value of a query parameter, percent-decoded for the common cases.
    pub fn query_param(&self, name: &str) -> (r: Option<String>)
        ensures
            text::text_view(r) == self@.query_param(name@),
    {
        let chars = text::chars_of(self.query.as_str());
        let wanted = text::chars_of(name);
        let pairs = text::split_at(&chars, '&');
        let ghost all = text::split(self.query@, '&');
        let mut i: usize = 0;
        assert(all.skip(0) =~= all);
        assert(text::slice_views(pairs@).len() == pairs@.len());
        while i < pairs.len()
            invariant
                i <= pairs@.len() == all.len(),
                all == text::slice_views(pairs@),
                all == text::split(self.query@, '&'),
                wanted@ == name@,
                parameter(all, name@) == parameter(all.skip(i as int), name@),
            decreases pairs@.len() - i,
        {
            assert(all.skip(i as int).drop_first() =~= all.skip(i + 1));
            assert(all.skip(i as int)[0] == pairs@[i as int]@);
            if let Some((k, v)) = text::split_pair(pairs[i], '=') {
                if text::same_chars(k, &wanted) {
                    return Some(decode_query(v));
                }
            }
            i = i + 1;
        }
        assert(all.skip(i as int) =~= Seq::empty());
        None
    }

    /// Reads the head of a request, without its body.
    pub fn parse(head: &[u8]) -> (r: Result<Self, HeadError>)
        ensures
            match r {
                Ok(request) => parsed_head(text::lossy(head@)) == Ok::<RequestView, HeadError>(
                    request@,
                ),
                Err(e) => parsed_head(text::lossy(head@)) == Err::<RequestView, HeadError>(e),
            },
    {
        let content = text::lossy_text(head);
        let chars = text::chars_of(content.as_str());
        let lines = text::split_lines(&chars);
        let ghost views = text::lines(content@);
        proof {
            assert(text::slice_views(lines@).len() == lines@.len());
            assert(views.len() > 0);
            assert(views[0] == lines@[0]@);
        }
        let words = text::split_words(lines[0]);
        proof {
            assert(text::slice_views(words@).len() == words@.len());
            assert(text::slice_views(words@) == text::words(views[0]));
        }
        if words.len() == 0 {
            return Err(HeadError::Method);
        }
        if words.len() == 1 {
            return Err(HeadError::Target);
        }
        assert(text::slice_views(words@)[0] == words@[0]@);
        assert(text::slice_views(words@)[1] == words@[1]@);
        let method = text::text_of(words[0]);
        let path = text::text_of(text::text_before(words[1], '?'));
        let query = match text::split_pair(words[1], '?') {
            Some((_, query)) => text::text_of(query),
            None => String::new(),
        };
        let current = if words.len() > 2 {
            assert(text::slice_views(words@)[2] == words@[2]@);
            let version = text::text_of(words[2]);
            text::same_text(version.as_str(), "HTTP/1.1")
        } else {
            true
        };
        let headers = read_fields(&lines);
        let keep_alive = match find_field(&headers, "connection") {
            Some(v) => {
                let value = text::text_of(&text::lower_chars(&text::chars_of(v)));
                if text::same_text(value.as_str(), "close") {
                    false
                } else if text::same_text(value.as_str(), "keep-alive") {
                    true
                } else {
                    current
                }
            },
            None => current,
        };
        Ok(
            Request {
                method,
                path,
                query,
                headers,
                body: Vec::new(),
                keep_alive,
                ranks: Vec::new(),
            },
        )
    }

    /// Whether a header has this value, whatever its case.
    pub fn header_is(&self, name: &str, value: &str) -> (r: bool)
        ensures
            r == self@.header_is(name@, value@),
    {
        match self.header(name) {
            Some(v) => text::text_folded_equal(v, value),
            None => false,
        }
    }

    /// Whether the client waits for a go-ahead before it sends the body.
    pub fn wants_continue(&self) -> (r: bool)
        ensures
            r == self@.header_is("expect"@, "100-continue"@),
    {
        self.header_is("expect", "100-continue")
    }

    /// Whether the body comes in chunks.
    pub fn is_chunked(&self) -> (r: bool)
        ensures
            r == self@.chunked(),
    {
        match self.header("transfer-encoding") {
            Some(v) => text::chars_contain(
                &text::lower_chars(&text::chars_of(v)),
                &text::chars_of("chunked"),
            ),
            None => false,
        }
    }

    /// The length of the body; an error where it is no number.
    pub fn content_length(&self) -> (r: Result<Option<usize>, BodyError>)
        ensures
            r == self@.declared_length(),
    {
        match self.header("content-length") {
            Some(v) => match text::parse_number(&text::chars_of(v), 10, usize::MAX as u64) {
                Some(n) => Ok(Some(n as usize)),
                None => Err(BodyError::Length),
            },
            None => Ok(None),
        }
    }

    /// How the body is to be read.
    pub fn body_plan(&self) -> (r: Result<BodyPlan, BodyError>)
        ensures
            r == self@.body_plan(),
    {
        if text::same_text(self.path.as_str(), "/v1/talk") {
            return Ok(BodyPlan::Nothing);
        }
        match self.content_length() {
            Err(e) => Err(e),
            Ok(Some(n)) => if n <= MAX_BODY {
                Ok(BodyPlan::Bytes(n))
            } else {
                Err(BodyError::TooLarge)
            },
            Ok(None) => if self.is_chunked() {
                Ok(BodyPlan::Chunked)
            } else {
                Ok(BodyPlan::Nothing)
            },
        }
    }
}

/// The bytes of a carriage return and a line feed.
pub open spec fn crlf() -> Seq<u8> {
    seq![13u8, 10u8]
}

fn push_crlf(out: &mut Vec<u8>)
    ensures
        final(out)@ == old(out)@ + crlf(),
{
    let end: [u8; 2] = [13, 10];
    assert(end@ =~= crlf());
    bytes::append_slice(out, &end);
}

/// The size in a chunk line: a hexadecimal number before any extension.
pub open spec fn chunk_size(line: Seq<char>) -> Option<nat> {
    text::parsed_number(text::trimmed(text::before(line, ';')), 16, usize::MAX as nat)
}

/// The size in a chunk line.
pub fn read_chunk_size(line: &str) -> (r: Option<usize>)
    ensures
        match r {
            Some(n) => chunk_size(line@) == Some(n as nat),
            None => chunk_size(line@) is None,
        },
{
    let chars = text::chars_of(line);
    match text::parse_number(
        text::trim(text::text_before(&chars, ';')),
        16,
        usize::MAX as u64,
    ) {
        Some(n) => Some(n as usize),
        None => None,
    }
}

/// What part of a chunked body comes next.
#[derive(Clone, Copy, Debug, PartialEq, Eq, Structural)]
pub enum ChunkStage {
    /// The line with the size of the next chunk.
    Size,
    /// This many bytes of a chunk.
    Data(usize),
    /// The line that ends a chunk.
    End,
    /// The lines behind the last chunk.
    Trailer,
    Done,
}

/// Reads a chunked body, byte by byte.
#[derive(Debug)]
pub struct ChunkReader {
    stage: ChunkStage,
    line: Vec<u8>,
    data: Vec<u8>,
    limit: Option<usize>,
    cap: usize,
}

/// What a reader of a chunked body has read.
pub struct ChunkView {
    pub stage: ChunkStage,
    pub line: Seq<u8>,
    pub data: Seq<u8>,
    /// The most bytes that the body may have.
    pub limit: Option<usize>,
    /// The most bytes that are read of one chunk.
    pub cap: usize,
}

impl View for ChunkReader {
    type V = ChunkView;

    closed spec fn view(&self) -> ChunkView {
        ChunkView {
            stage: self.stage,
            line: self.line@,
            data: self.data@,
            limit: self.limit,
            cap: self.cap,
        }
    }
}

/// The text of a line without its line break.
pub open spec fn line_text(line: Seq<u8>) -> Seq<char> {
    text::lossy(line.take(line.len() - 2))
}

impl ChunkView {
    /// Nothing has been read.
    pub open spec fn fresh(limit: Option<usize>, cap: usize) -> Self {
        ChunkView {
            stage: ChunkStage::Size,
            line: Seq::empty(),
            data: Seq::empty(),
            limit,
            cap,
        }
    }

    /// Whether a chunk of `n` bytes is too much.
    pub open spec fn too_large(self, n: nat) -> bool {
        match self.limit {
            Some(limit) => self.data.len() + n > limit,
            None => false,
        }
    }

    /// The reader at the start of this stage.
    pub open spec fn at(self, stage: ChunkStage) -> Self {
        ChunkView { stage, line: Seq::empty(), ..self }
    }

    /// The reader once a line is complete.
    pub open spec fn with_line(self, line: Seq<u8>) -> Result<Self, BodyError> {
        match self.stage {
            ChunkStage::Size => match chunk_size(line_text(line)) {
                None => Err(BodyError::ChunkSize),
                Some(n) => if n == 0 {
                    Ok(self.at(ChunkStage::Trailer))
                } else if self.too_large(n) {
                    Err(BodyError::TooLarge)
                } else {
                    Ok(
                        self.at(
                            ChunkStage::Data(
                                if n > self.cap {
                                    self.cap
                                } else {
                                    n as usize
                                },
                            ),
                        ),
                    )
                },
            },
            ChunkStage::End => Ok(self.at(ChunkStage::Size)),
            ChunkStage::Trailer => if line_text(line).len() == 0 {
                Ok(self.at(ChunkStage::Done))
            } else {
                Ok(self.at(ChunkStage::Trailer))
            },
            _ => Ok(self),
        }
    }

    /// The reader once a byte has come in. Behind the end nothing is read any more.
    pub open spec fn fed(self, byte: u8) -> Result<Self, BodyError> {
        match self.stage {
            ChunkStage::Done => Ok(self),
            ChunkStage::Data(left) => {
                let rest = ChunkView { data: self.data.push(byte), ..self };
                if left <= 1 {
                    Ok(rest.at(ChunkStage::End))
                } else {
                    Ok(rest.at(ChunkStage::Data((left - 1) as usize)))
                }
            },
            _ => {
                let line = self.line.push(byte);
                if ends(line, crlf()) {
                    self.with_line(line)
                } else if line.len() > MAX_LINE {
                    Err(BodyError::LineTooLong)
                } else {
                    Ok(ChunkView { line, ..self })
                }
            },
        }
    }
}

impl ChunkReader {
    /// Whether the reader is in order.
    pub open spec fn wf(&self) -> bool {
        self@.cap > 0
    }

    /// Reads a body of at most `limit` bytes.
    pub fn new(limit: usize) -> (r: Self)
        ensures
            r.wf(),
            r@ == ChunkView::fresh(Some(limit), usize::MAX),
    {
        ChunkReader {
            stage: ChunkStage::Size,
            line: Vec::new(),
            data: Vec::new(),
            limit: Some(limit),
            cap: usize::MAX,
        }
    }

    /// Reads a stream that is taken off piece by piece: of each chunk at most `cap` bytes.
    pub fn streaming(cap: usize) -> (r: Self)
        requires
            cap > 0,
        ensures
            r.wf(),
            r@ == ChunkView::fresh(None, cap),
    {
        ChunkReader {
            stage: ChunkStage::Size,
            line: Vec::new(),
            data: Vec::new(),
            limit: None,
            cap,
        }
    }

    /// What comes next.
    pub fn stage(&self) -> (r: ChunkStage)
        ensures
            r == self@.stage,
    {
        self.stage
    }

    fn goto(&mut self, stage: ChunkStage)
        ensures
            final(self)@ == old(self)@.at(stage),
    {
        self.stage = stage;
        self.line = Vec::new();
    }

    /// Whether a chunk of `n` bytes is too much.
    fn too_large(&self, n: usize) -> (r: bool)
        ensures
            r == self@.too_large(n as nat),
    {
        match self.limit {
            Some(limit) => self.data.len() > limit || n > limit - self.data.len(),
            None => false,
        }
    }

    /// Takes in a byte. Behind an error the reader is of no more use.
    pub fn feed(&mut self, byte: u8) -> (r: Result<(), BodyError>)
        requires
            old(self).wf(),
        ensures
            final(self).wf(),
            match r {
                Ok(()) => old(self)@.fed(byte) == Ok::<ChunkView, BodyError>(final(self)@),
                Err(e) => old(self)@.fed(byte) == Err::<ChunkView, BodyError>(e),
            },
    {
        match self.stage {
            ChunkStage::Done => Ok(()),
            ChunkStage::Data(left) => {
                self.data.push(byte);
                if left <= 1 {
                    self.goto(ChunkStage::End);
                } else {
                    self.goto(ChunkStage::Data(left - 1));
                }
                Ok(())
            },
            ChunkStage::Size => {
                self.line.push(byte);
                match line_progress(&self.line) {
                    Progress::More => Ok(()),
                    Progress::TooLong => Err(BodyError::LineTooLong),
                    Progress::Complete => match read_chunk_size(
                        whole_line(&self.line).as_str(),
                    ) {
                        None => Err(BodyError::ChunkSize),
                        Some(n) => if n == 0 {
                            self.goto(ChunkStage::Trailer);
                            Ok(())
                        } else if self.too_large(n) {
                            Err(BodyError::TooLarge)
                        } else {
                            let part: usize = if n > self.cap {
                                self.cap
                            } else {
                                n
                            };
                            self.goto(ChunkStage::Data(part));
                            Ok(())
                        },
                    },
                }
            },
            ChunkStage::End => {
                self.line.push(byte);
                match line_progress(&self.line) {
                    Progress::More => Ok(()),
                    Progress::TooLong => Err(BodyError::LineTooLong),
                    Progress::Complete => {
                        self.goto(ChunkStage::Size);
                        Ok(())
                    },
                }
            },
            ChunkStage::Trailer => {
                self.line.push(byte);
                match line_progress(&self.line) {
                    Progress::More => Ok(()),
                    Progress::TooLong => Err(BodyError::LineTooLong),
                    Progress::Complete => {
                        let empty = whole_line(&self.line).as_str().is_empty();
                        if empty {
                            self.goto(ChunkStage::Done);
                        } else {
                            self.goto(ChunkStage::Trailer);
                        }
                        Ok(())
                    },
                }
            },
        }
    }

    /// Takes off what has been read.
    pub fn take(&mut self) -> (r: Vec<u8>)
        requires
            old(self).wf(),
        ensures
            final(self).wf(),
            r@ == old(self)@.data,
            final(self)@ == (ChunkView { data: Seq::empty(), ..old(self)@ }),
    {
        let out = bytes::copy_of(&self.data);
        self.data = Vec::new();
        out
    }
}

/// How far a line is.
fn line_progress(line: &Vec<u8>) -> (r: Progress)
    ensures
        r == (if ends(line@, crlf()) {
            Progress::Complete
        } else if line@.len() > MAX_LINE {
            Progress::TooLong
        } else {
            Progress::More
        }),
{
    let end: [u8; 2] = [13, 10];
    assert(end@ =~= crlf());
    if ends_with(line, &end) {
        Progress::Complete
    } else if line.len() > MAX_LINE {
        Progress::TooLong
    } else {
        Progress::More
    }
}

/// The text of a complete line.
fn whole_line(line: &Vec<u8>) -> (r: String)
    requires
        line@.len() >= 2,
    ensures
        r@ == line_text(line@),
{
    let end: usize = line.len() - 2;
    let content = &line[0..end];
    assert(content@ =~= line@.take(line@.len() - 2));
    text::lossy_text(content)
}

/// The bytes of one chunk: its size in hexadecimal notation, a line break, the data and a line
/// break.
pub open spec fn chunk_bytes(data: Seq<u8>) -> Seq<u8> {
    utf8::encode_utf8(text::number_text(data.len(), 16)) + crlf() + data + crlf()
}

/// The bytes of one chunk.
pub fn write_chunk(data: &[u8]) -> (r: Vec<u8>)
    ensures
        r@ == chunk_bytes(data@),
{
    let mut size = String::new();
    text::push_number(&mut size, data.len() as u64, 16);
    assert(size@ =~= text::number_text(data@.len(), 16));
    let mut out = bytes::copy_of(size.as_str().as_bytes());
    push_crlf(&mut out);
    bytes::append_slice(&mut out, data);
    push_crlf(&mut out);
    out
}

/// The bytes behind the last chunk: a chunk of no bytes, and no trailer.
pub open spec fn last_chunk() -> Seq<u8> {
    seq![48u8, 13u8, 10u8, 13u8, 10u8]
}

/// The bytes behind the last chunk.
pub fn write_last_chunk() -> (r: Vec<u8>)
    ensures
        r@ == last_chunk(),
{
    let r: Vec<u8> = vec![48, 13, 10, 13, 10];
    assert(r@ =~= last_chunk());
    r
}

#[derive(Debug)]
pub struct Response {
    pub status: u16,
    pub headers: Vec<(String, String)>,
    pub body: Vec<u8>,
}

/// What a response says.
pub struct ResponseView {
    pub status: u16,
    pub headers: Seq<(Seq<char>, Seq<char>)>,
    pub body: Seq<u8>,
}

impl View for Response {
    type V = ResponseView;

    open spec fn view(&self) -> ResponseView {
        ResponseView {
            status: self.status,
            headers: field_views(self.headers@),
            body: self.body@,
        }
    }
}

/// The reason phrase of a status.
pub open spec fn reason_of(status: u16) -> Seq<char> {
    if status == 200 {
        "OK"@
    } else if status == 204 {
        "No Content"@
    } else if status == 400 {
        "Bad Request"@
    } else if status == 401 {
        "Unauthorized"@
    } else if status == 404 {
        "Not Found"@
    } else if status == 405 {
        "Method Not Allowed"@
    } else if status == 406 {
        "Not Acceptable"@
    } else if status == 409 {
        "Conflict"@
    } else if status == 413 {
        "Payload Too Large"@
    } else if status == 415 {
        "Unsupported Media Type"@
    } else if status == 429 {
        "Too Many Requests"@
    } else if status == 500 {
        "Internal Server Error"@
    } else if status == 501 {
        "Not Implemented"@
    } else if status == 503 {
        "Service Unavailable"@
    } else {
        "Unknown"@
    }
}

/// The reason phrase of a status.
pub fn reason(status: u16) -> (r: &'static str)
    ensures
        r@ == reason_of(status),
{
    match status {
        200 => "OK",
        204 => "No Content",
        400 => "Bad Request",
        401 => "Unauthorized",
        404 => "Not Found",
        405 => "Method Not Allowed",
        406 => "Not Acceptable",
        409 => "Conflict",
        413 => "Payload Too Large",
        415 => "Unsupported Media Type",
        429 => "Too Many Requests",
        500 => "Internal Server Error",
        501 => "Not Implemented",
        503 => "Service Unavailable",
        _ => "Unknown",
    }
}

/// The lines of header fields.
pub open spec fn field_lines(fields: Seq<(Seq<char>, Seq<char>)>) -> Seq<char>
    decreases fields.len(),
{
    if fields.len() == 0 {
        Seq::empty()
    } else {
        field_lines(fields.drop_last()) + fields.last().0 + ": "@ + fields.last().1 + "\r\n"@
    }
}

impl ResponseView {
    /// A response with a body of this type.
    pub open spec fn plain(status: u16, content_type: Seq<char>, body: Seq<u8>) -> Self {
        ResponseView { status, headers: seq![("Content-Type"@, content_type)], body }
    }

    /// A JSON response.
    pub open spec fn json(status: u16, body: Seq<u8>) -> Self {
        ResponseView::plain(status, MEDIA_TYPE_JSON@, body)
    }

    /// A response that says what went wrong.
    pub open spec fn error(status: u16, error: Seq<char>, message: Seq<char>) -> Self {
        ResponseView::json(status, utf8::encode_utf8(json::error_object(error, message)))
    }

    /// A response that says what would have been supported.
    pub open spec fn negotiation(status: u16, error: Seq<char>, supported: Seq<Seq<char>>) -> Self {
        ResponseView::json(status, utf8::encode_utf8(json::negotiation_object(error, supported)))
    }

    /// The response with one more header.
    pub open spec fn with_header(self, name: Seq<char>, value: Seq<char>) -> Self {
        ResponseView { headers: self.headers.push((name, value)), ..self }
    }

    /// The head of the response.
    pub open spec fn head(self, keep_alive: bool) -> Seq<char> {
        "HTTP/1.1 "@ + text::decimal(self.status as nat) + " "@ + reason_of(self.status)
            + "\r\n"@ + field_lines(self.headers) + "Content-Length: "@ + text::decimal(
            self.body.len(),
        ) + "\r\n"@ + if keep_alive {
            "Connection: keep-alive\r\n\r\n"@
        } else {
            "Connection: close\r\n\r\n"@
        }
    }

    /// The bytes of the response.
    pub open spec fn bytes(self, keep_alive: bool) -> Seq<u8> {
        utf8::encode_utf8(self.head(keep_alive)) + self.body
    }
}

impl Response {
    pub fn new(status: u16, content_type: &str, body: Vec<u8>) -> (r: Self)
        ensures
            r@ == ResponseView::plain(status, content_type@, body@),
    {
        let mut headers: Vec<(String, String)> = Vec::new();
        headers.push(("Content-Type".to_string(), content_type.to_string()));
        let r = Response { status, headers, body };
        assert(r@.headers =~= seq![("Content-Type"@, content_type@)]);
        r
    }

    /// A JSON response with this body; an empty object where there is none.
    pub fn json(status: u16, body: Option<Vec<u8>>) -> (r: Self)
        ensures
            r@ == ResponseView::json(
                status,
                match body {
                    Some(b) => b@,
                    None => seq![123u8, 125u8],
                },
            ),
    {
        let content: Vec<u8> = match body {
            Some(b) => b,
            None => {
                let empty: Vec<u8> = vec![123, 125];
                assert(empty@ =~= seq![123u8, 125u8]);
                empty
            },
        };
        Response::new(status, MEDIA_TYPE_JSON, content)
    }

    /// A response that says what went wrong.
    pub fn error(status: u16, error: &str, message: &str) -> (r: Self)
        ensures
            r@ == ResponseView::error(status, error@, message@),
    {
        let body = json::error_text(error, message);
        Response::json(status, Some(bytes::copy_of(body.as_str().as_bytes())))
    }

    /// A response that says what would have been supported.
    pub fn negotiation(status: u16, error: &str, supported: &[&str]) -> (r: Self)
        ensures
            r@ == ResponseView::negotiation(status, error@, json::str_views(supported@)),
    {
        let body = json::negotiation_text(error, supported);
        Response::json(status, Some(bytes::copy_of(body.as_str().as_bytes())))
    }

    /// The response with one more header.
    pub fn header(self, name: &str, value: &str) -> (r: Self)
        ensures
            r@ == self@.with_header(name@, value@),
    {
        let Response { status, headers, body } = self;
        let mut headers = headers;
        let ghost before = field_views(headers@);
        headers.push((name.to_string(), value.to_string()));
        assert(field_views(headers@) =~= before.push((name@, value@)));
        Response { status, headers, body }
    }

    /// The bytes of the response.
    pub fn to_bytes(&self, keep_alive: bool) -> (r: Vec<u8>)
        ensures
            r@ == self@.bytes(keep_alive),
    {
        let mut head = String::new();
        text::push_text(&mut head, "HTTP/1.1 ");
        text::push_number(&mut head, self.status as u64, 10);
        text::push_text(&mut head, " ");
        text::push_text(&mut head, reason(self.status));
        text::push_text(&mut head, "\r\n");
        let ghost start = head@;
        let ghost all = field_views(self.headers@);
        let mut i: usize = 0;
        assert(all.take(0) =~= Seq::empty());
        assert(head@ =~= start + field_lines(all.take(0)));
        while i < self.headers.len()
            invariant
                i <= self.headers@.len(),
                all == field_views(self.headers@),
                head@ == start + field_lines(all.take(i as int)),
            decreases self.headers@.len() - i,
        {
            proof {
                assert(all.take(i + 1).drop_last() =~= all.take(i as int));
                assert(all.take(i + 1).last() == (
                    self.headers@[i as int].0@,
                    self.headers@[i as int].1@,
                ));
            }
            text::push_text(&mut head, self.headers[i].0.as_str());
            text::push_text(&mut head, ": ");
            text::push_text(&mut head, self.headers[i].1.as_str());
            text::push_text(&mut head, "\r\n");
            assert(head@ =~= start + field_lines(all.take(i + 1)));
            i = i + 1;
        }
        assert(all.take(i as int) =~= all);
        text::push_text(&mut head, "Content-Length: ");
        text::push_number(&mut head, self.body.len() as u64, 10);
        text::push_text(&mut head, "\r\n");
        text::push_text(
            &mut head,
            if keep_alive {
                "Connection: keep-alive\r\n\r\n"
            } else {
                "Connection: close\r\n\r\n"
            },
        );
        assert(head@ =~= self@.head(keep_alive));
        let mut out = bytes::copy_of(head.as_str().as_bytes());
        bytes::append_slice(&mut out, &self.body);
        out
    }
}

impl ChunkView {
    /// The reader once these bytes have come in.
    pub open spec fn run(self, s: Seq<u8>) -> Result<Self, BodyError>
        decreases s.len(),
    {
        if s.len() == 0 {
            Ok(self)
        } else {
            match self.run(s.drop_last()) {
                Ok(v) => v.fed(s.last()),
                Err(e) => Err(e),
            }
        }
    }
}

proof fn lemma_run_concat(v: ChunkView, a: Seq<u8>, b: Seq<u8>)
    requires
        v.run(a) is Ok,
    ensures
        v.run(a + b) == v.run(a)->Ok_0.run(b),
    decreases b.len(),
{
    if b.len() == 0 {
        assert(a + b =~= a);
    } else {
        lemma_run_concat(v, a, b.drop_last());
        assert((a + b).drop_last() =~= a + b.drop_last());
        assert((a + b).last() == b.last());
    }
}

/// The bytes of a line that is not yet complete.
proof fn lemma_run_line(v: ChunkView, s: Seq<u8>)
    requires
        v.stage == ChunkStage::Size || v.stage == ChunkStage::End || v.stage
            == ChunkStage::Trailer,
        v.line.len() == 0,
        s.len() <= MAX_LINE,
        forall|i: int| 0 <= i < s.len() ==> #[trigger] s[i] != 10,
    ensures
        v.run(s) == Ok::<ChunkView, BodyError>(ChunkView { line: s, ..v }),
    decreases s.len(),
{
    if s.len() == 0 {
        assert(v.line =~= s);
    } else {
        let t = s.drop_last();
        assert forall|i: int| 0 <= i < t.len() implies #[trigger] t[i] != 10 by {
            assert(s[i] != 10);
        }
        lemma_run_line(v, t);
        assert(t.push(s.last()) =~= s);
        assert(s[s.len() - 1] != 10);
        if s.len() >= 2 {
            assert(s.skip(s.len() - 2)[1] == s.last());
            assert(crlf()[1] == 10);
        }
        assert(!ends(s, crlf()));
    }
}

/// A line with its line break.
proof fn lemma_run_whole_line(v: ChunkView, s: Seq<u8>)
    requires
        v.stage == ChunkStage::Size || v.stage == ChunkStage::End || v.stage
            == ChunkStage::Trailer,
        v.line.len() == 0,
        s.len() < MAX_LINE,
        forall|i: int| 0 <= i < s.len() ==> #[trigger] s[i] != 10,
    ensures
        v.run(s + crlf()) == v.with_line(s + crlf()),
{
    let t = s.push(13);
    assert forall|i: int| 0 <= i < t.len() implies #[trigger] t[i] != 10 by {
        if i < s.len() {
            assert(s[i] != 10);
        }
    }
    lemma_run_line(v, t);
    let whole = s + crlf();
    assert(whole.drop_last() =~= t);
    assert(whole.last() == 10);
    assert(t.push(10) =~= whole);
    assert(whole.skip(whole.len() - 2) =~= crlf());
    let w = ChunkView { line: t, ..v };
    assert(w.fed(10) == w.with_line(whole));
    assert(w.with_line(whole) == v.with_line(whole));
}

/// The bytes of a chunk.
proof fn lemma_run_data(v: ChunkView, d: Seq<u8>, k: int)
    requires
        0 < d.len() <= usize::MAX,
        v.stage == ChunkStage::Data(d.len() as usize),
        v.line.len() == 0,
        0 <= k <= d.len(),
    ensures
        v.run(d.take(k)) == Ok::<ChunkView, BodyError>(
            ChunkView {
                stage: if k == d.len() {
                    ChunkStage::End
                } else {
                    ChunkStage::Data((d.len() - k) as usize)
                },
                data: v.data + d.take(k),
                ..v
            },
        ),
    decreases k,
{
    if k == 0 {
        assert(v.data + d.take(0) =~= v.data);
    } else {
        lemma_run_data(v, d, k - 1);
        assert(d.take(k).drop_last() =~= d.take(k - 1));
        assert((v.data + d.take(k - 1)).push(d[k - 1]) =~= v.data + d.take(k));
        assert(v.line =~= Seq::empty());
    }
}

/// The size line of a chunk.
proof fn lemma_size_line(n: nat)
    requires
        n <= usize::MAX,
    ensures
        ({
            let s = utf8::encode_utf8(text::number_text(n, 16));
            &&& s.len() < MAX_LINE
            &&& forall|i: int| 0 <= i < s.len() ==> #[trigger] s[i] != 10
            &&& chunk_size(line_text(s + crlf())) == Some(n)
        }),
{
    let t = text::number_text(n, 16);
    let s = utf8::encode_utf8(t);
    text::law_number_round_trip(n, 16, usize::MAX as nat);
    text::lemma_hex_length(n);
    assert(utf8::is_ascii_chars(t)) by {
        assert forall|i: int| 0 <= i < t.len() implies 0 <= #[trigger] t[i] as nat <= 127 by {
            assert(text::digit_value(t[i], 16) is Some);
        }
    }
    utf8::is_ascii_chars_encode_utf8(t);
    assert forall|i: int| 0 <= i < s.len() implies #[trigger] s[i] != 10 by {
        assert(text::digit_value(t[i], 16) is Some);
        assert(s[i] as nat == t[i] as nat);
    }
    assert((s + crlf()).take((s + crlf()).len() - 2) =~= s);
    text::lemma_lossy_encoded(t);
    assert(text::index_of(t, ';') == t.len()) by {
        assert forall|i: int| 0 <= i < t.len() implies #[trigger] t[i] != ';' by {
            assert(text::digit_value(t[i], 16) is Some);
        }
        text::lemma_index_of_unique(t, ';', t.len() as int);
    }
    assert(text::before(t, ';') =~= t);
    text::lemma_digits_are_trimmed(t, 16);
}

/// A chunk that has been written is read back.
proof fn lemma_run_chunk(v: ChunkView, d: Seq<u8>)
    requires
        v.stage == ChunkStage::Size,
        v.line.len() == 0,
        0 < d.len() <= v.cap,
        !v.too_large(d.len()),
    ensures
        v.run(chunk_bytes(d)) == Ok::<ChunkView, BodyError>(
            ChunkView { data: v.data + d, ..v },
        ),
{
    let s = utf8::encode_utf8(text::number_text(d.len(), 16));
    lemma_size_line(d.len());
    lemma_run_whole_line(v, s);
    let a = v.at(ChunkStage::Data(d.len() as usize));
    assert(v.run(s + crlf()) == Ok::<ChunkView, BodyError>(a));
    lemma_run_data(a, d, d.len() as int);
    assert(d.take(d.len() as int) =~= d);
    let b = ChunkView { stage: ChunkStage::End, data: v.data + d, ..a };
    lemma_run_concat(v, s + crlf(), d);
    assert(v.run(s + crlf() + d) == Ok::<ChunkView, BodyError>(b));
    lemma_run_whole_line(b, Seq::empty());
    assert(Seq::<u8>::empty() + crlf() =~= crlf());
    lemma_run_concat(v, s + crlf() + d, crlf());
    assert(v.line =~= Seq::empty());
}

/// The bytes of several chunks and of what ends them.
pub open spec fn chunked_bytes(chunks: Seq<Seq<u8>>) -> Seq<u8>
    decreases chunks.len(),
{
    if chunks.len() == 0 {
        Seq::empty()
    } else {
        chunked_bytes(chunks.drop_last()) + chunk_bytes(chunks.last())
    }
}

/// The data of several chunks.
pub open spec fn chunked_data(chunks: Seq<Seq<u8>>) -> Seq<u8>
    decreases chunks.len(),
{
    if chunks.len() == 0 {
        Seq::empty()
    } else {
        chunked_data(chunks.drop_last()) + chunks.last()
    }
}

proof fn lemma_run_chunks(limit: usize, chunks: Seq<Seq<u8>>)
    requires
        forall|i: int| 0 <= i < chunks.len() ==> 0 < (#[trigger] chunks[i]).len() <= usize::MAX,
        chunked_data(chunks).len() <= limit,
    ensures
        ChunkView::fresh(Some(limit), usize::MAX).run(chunked_bytes(chunks)) == Ok::<
            ChunkView,
            BodyError,
        >(
            ChunkView {
                data: chunked_data(chunks),
                ..ChunkView::fresh(Some(limit), usize::MAX)
            },
        ),
    decreases chunks.len(),
{
    let v = ChunkView::fresh(Some(limit), usize::MAX);
    if chunks.len() > 0 {
        let before = chunks.drop_last();
        assert forall|i: int| 0 <= i < before.len() implies 0 < (#[trigger] before[i]).len()
            <= usize::MAX by {
            assert(before[i] == chunks[i]);
        }
        lemma_run_chunks(limit, before);
        let w = ChunkView { data: chunked_data(before), ..v };
        assert(chunks.last() == chunks[chunks.len() - 1]);
        lemma_run_chunk(w, chunks.last());
        lemma_run_concat(v, chunked_bytes(before), chunk_bytes(chunks.last()));
    }
}

/// What is written in chunks is read back: all of the data in its order, and then the end.
pub proof fn law_chunks_round_trip(limit: usize, chunks: Seq<Seq<u8>>)
    requires
        forall|i: int| 0 <= i < chunks.len() ==> 0 < (#[trigger] chunks[i]).len() <= usize::MAX,
        chunked_data(chunks).len() <= limit,
    ensures
        ({
            let r = ChunkView::fresh(Some(limit), usize::MAX).run(
                chunked_bytes(chunks) + last_chunk(),
            );
            &&& r is Ok
            &&& r->Ok_0.stage == ChunkStage::Done
            &&& r->Ok_0.data == chunked_data(chunks)
        }),
{
    let v = ChunkView::fresh(Some(limit), usize::MAX);
    lemma_run_chunks(limit, chunks);
    let w = ChunkView { data: chunked_data(chunks), ..v };
    lemma_run_concat(v, chunked_bytes(chunks), last_chunk());
    let zero = utf8::encode_utf8(text::number_text(0, 16));
    lemma_size_line(0);
    assert(zero =~= seq![48u8]) by {
        let t = text::number_text(0, 16);
        assert(t =~= seq!['0']);
        assert(utf8::is_ascii_chars(t));
        utf8::is_ascii_chars_encode_utf8(t);
    }
    lemma_run_whole_line(w, zero);
    let x = w.at(ChunkStage::Trailer);
    assert(w.run(zero + crlf()) == Ok::<ChunkView, BodyError>(x));
    lemma_run_whole_line(x, Seq::empty());
    assert(Seq::<u8>::empty() + crlf() =~= crlf());
    assert(crlf().take(0) =~= utf8::encode_utf8(Seq::empty()));
    text::lemma_lossy_encoded(Seq::empty());
    lemma_run_concat(w, zero + crlf(), crlf());
    assert(last_chunk() =~= zero + crlf() + crlf());
}

/// A head is complete once it ends with an empty line; under way it may have up to 16384 bytes.
pub proof fn law_heads_end_with_an_empty_line(head: Seq<u8>)
    ensures
        head_state(head) == Progress::Complete <==> head.len() >= 4 && head[head.len() - 4] == 13
            && head[head.len() - 3] == 10 && head[head.len() - 2] == 13 && head[head.len() - 1]
            == 10,
        head_state(head) == Progress::TooLong ==> head.len() > 16384,
        head_state(head) == Progress::More ==> head.len() <= 16384,
{
    if head.len() >= 4 {
        let tail = head.skip(head.len() - 4);
        let mark = seq![13u8, 10u8, 13u8, 10u8];
        assert(tail[0] == head[head.len() - 4] && tail[1] == head[head.len() - 3] && tail[2]
            == head[head.len() - 2] && tail[3] == head[head.len() - 1]);
        if head[head.len() - 4] == 13 && head[head.len() - 3] == 10 && head[head.len() - 2] == 13
            && head[head.len() - 1] == 10 {
            assert(tail =~= mark);
        } else if tail == mark {
            assert(mark[0] == 13 && mark[1] == 10 && mark[2] == 13 && mark[3] == 10);
        }
    }
}

/// A header is found by its name in whatever case, the first of several.
pub proof fn law_first_field_counts(
    before: Seq<(Seq<char>, Seq<char>)>,
    name: Seq<char>,
    value: Seq<char>,
    after: Seq<(Seq<char>, Seq<char>)>,
    wanted: Seq<char>,
)
    requires
        forall|i: int|
            0 <= i < before.len() ==> text::lowered((#[trigger] before[i]).0) != text::lowered(
                wanted,
            ),
    ensures
        field(before, wanted) is None,
        text::lowered(name) == text::lowered(wanted) ==> field(
            before.push((name, value)) + after,
            wanted,
        ) == Some(value),
    decreases before.len(),
{
    let all = before.push((name, value)) + after;
    if before.len() == 0 {
        assert(all[0] == (name, value));
    } else {
        let rest = before.drop_first();
        assert(text::lowered(before[0].0) != text::lowered(wanted));
        assert forall|i: int| 0 <= i < rest.len() implies text::lowered((#[trigger] rest[i]).0)
            != text::lowered(wanted) by {
            assert(rest[i] == before[i + 1]);
        }
        assert(all[0] == before[0]);
        assert(all.drop_first() =~= rest.push((name, value)) + after);
        law_first_field_counts(rest, name, value, after, wanted);
    }
}

/// Each line with a colon is a header: its name in small letters, its value, both without blanks
/// around them. Lines without one are passed over.
pub proof fn law_lines_are_headers(lines: Seq<Seq<char>>, name: Seq<char>, value: Seq<char>)
    requires
        forall|i: int| 0 <= i < name.len() ==> #[trigger] name[i] != ':',
    ensures
        fields_in(lines.push(name.push(':') + value)) == fields_in(lines).push(
            (text::lowered(text::trimmed(name)), text::trimmed(value)),
        ),
        fields_in(lines.push(name)) == fields_in(lines),
        fields_in(Seq::empty()) == Seq::<(Seq<char>, Seq<char>)>::empty(),
{
    text::law_split_once_cuts_first(name, ':', value);
    assert(lines.push(name.push(':') + value).drop_last() =~= lines);
    assert(lines.push(name).drop_last() =~= lines);
}

/// The first line of a head gives the method, the path, and what stands behind a question mark;
/// the others give the headers. Without a path there is no request.
pub proof fn law_request_lines_are_read(
    method: Seq<char>,
    path: Seq<char>,
    query: Seq<char>,
    version: Seq<char>,
    rest: Seq<char>,
)
    requires
        text::solid(method) && text::solid(path) && text::solid(query) && text::solid(version),
        method.len() > 0 && path.len() > 0 && version.len() > 0,
        forall|i: int| 0 <= i < path.len() ==> #[trigger] path[i] != '?',
    ensures
        ({
            let line = method + seq![' '] + path + seq!['?'] + query + seq![' '] + version;
            let bare = method + seq![' '] + path + seq![' '] + version;
            let r = parsed_head(line + seq!['\r', '\n'] + rest);
            let s = parsed_head(bare + seq!['\r', '\n'] + rest);
            let e = parsed_head(method + seq!['\r', '\n'] + rest);
            &&& r is Ok
            &&& (r->Ok_0).method == method
            &&& (r->Ok_0).path == path
            &&& (r->Ok_0).query == query
            &&& (r->Ok_0).headers == fields_in(text::lines(rest))
            &&& (r->Ok_0).body.len() == 0
            &&& (r->Ok_0).keep_alive == stays_open(fields_in(text::lines(rest)), version)
            &&& s is Ok
            &&& (s->Ok_0).method == method
            &&& (s->Ok_0).path == path
            &&& (s->Ok_0).query.len() == 0
            &&& e == Err::<RequestView, HeadError>(HeadError::Target)
        }),
{
    text::law_spaces('?');
    let target = path + seq!['?'] + query;
    let line = method + seq![' '] + path + seq!['?'] + query + seq![' '] + version;
    let bare = method + seq![' '] + path + seq![' '] + version;
    assert(text::solid(target)) by {
        assert forall|i: int| 0 <= i < target.len() implies !text::is_space(
            #[trigger] target[i],
        ) by {
            if i < path.len() {
                assert(target[i] == path[i]);
            } else if i > path.len() {
                assert(target[i] == query[i - path.len() - 1]);
            }
        }
    }
    assert(line =~= method + seq![' '] + target + seq![' '] + version);
    lemma_request_line(method, target, version, rest);
    lemma_request_line(method, path, version, rest);
    lemma_lone_word(method, rest);
    text::law_split_once_cuts_first(path, '?', query);
    assert(path.push('?') + query =~= target);
}

proof fn lemma_lone_word(word: Seq<char>, rest: Seq<char>)
    requires
        text::solid(word),
        word.len() > 0,
    ensures
        text::words(text::lines(word + seq!['\r', '\n'] + rest)[0]) == seq![word],
{
    let none = Seq::<char>::empty();
    lemma_no_break(word);
    text::law_lines_end_at_breaks(word, rest);
    text::law_words_stand_between_spaces(none, word, none);
    assert(none + word + none =~= word);
    assert(text::words(none) =~= Seq::<Seq<char>>::empty()) by {
        text::law_words_stand_between_spaces(none, none, none);
    }
    assert(seq![word] + Seq::<Seq<char>>::empty() =~= seq![word]);
}

proof fn lemma_no_break(line: Seq<char>)
    requires
        forall|i: int| 0 <= i < line.len() ==> #[trigger] line[i] != '\r' || !text::is_space(line[i]),
    ensures
        forall|i: int| !#[trigger] text::breaks_at(line, i),
{
    text::law_spaces('a');
}

proof fn lemma_request_line(
    method: Seq<char>,
    target: Seq<char>,
    version: Seq<char>,
    rest: Seq<char>,
)
    requires
        text::solid(method) && text::solid(target) && text::solid(version),
        method.len() > 0 && target.len() > 0 && version.len() > 0,
    ensures
        ({
            let line = method + seq![' '] + target + seq![' '] + version;
            let all = line + seq!['\r', '\n'] + rest;
            &&& text::words(text::lines(all)[0]) == seq![method, target, version]
            &&& text::lines(all).drop_first() == text::lines(rest)
        }),
{
    let none = Seq::<char>::empty();
    let blank = seq![' '];
    let line = method + blank + target + blank + version;
    text::law_spaces('a');
    assert forall|i: int| 0 <= i < line.len() implies #[trigger] line[i] != '\r'
        || !text::is_space(line[i]) by {
        let a = method.len() as int;
        let b = a + 1 + target.len();
        if i < a {
            assert(line[i] == method[i]);
        } else if i == a {
            assert(line[i] == ' ');
        } else if i < b {
            assert(line[i] == target[i - a - 1]);
        } else if i == b {
            assert(line[i] == ' ');
        } else {
            assert(line[i] == version[i - b - 1]);
        }
    }
    lemma_no_break(line);
    text::law_lines_end_at_breaks(line, rest);
    let tail = blank + target + blank + version;
    let last = blank + version;
    assert(text::blank(blank));
    assert(text::blank(none));
    text::law_words_stand_between_spaces(none, method, tail);
    assert(none + method + tail =~= line);
    text::law_words_stand_between_spaces(blank, target, last);
    assert(blank + target + last =~= tail);
    text::law_words_stand_between_spaces(blank, version, none);
    assert(blank + version + none =~= last);
    assert(text::words(none) =~= Seq::<Seq<char>>::empty());
    let all = line + seq!['\r', '\n'] + rest;
    assert(text::lines(all) =~= seq![line] + text::lines(rest));
    assert(text::lines(all).drop_first() =~= text::lines(rest));
    assert(text::words(line) =~= seq![method, target, version]);
}

/// A connection stays open where the client asks for it, closes where the client asks for that,
/// and else stays open from HTTP/1.1 on.
pub proof fn law_connections_stay_open(
    fields: Seq<(Seq<char>, Seq<char>)>,
    version: Seq<char>,
)
    ensures
        ({
            let asked = field(fields, "connection"@);
            let close = asked is Some && text::lowered(asked->0) == "close"@;
            let keep = asked is Some && text::lowered(asked->0) == "keep-alive"@;
            &&& close ==> !stays_open(fields, version)
            &&& keep ==> stays_open(fields, version)
            &&& !close && !keep ==> (stays_open(fields, version) <==> version == "HTTP/1.1"@)
        }),
{
    reveal_strlit("close");
    reveal_strlit("keep-alive");
    assert("close"@.len() == 5 && "keep-alive"@.len() == 10);
}

/// What a request's body is. That of a talk-back upload is read elsewhere. A length in decimal is
/// taken, up to a mebibyte; what is no length is refused. Without one, a chunked body is read in
/// chunks, and otherwise there is none.
pub proof fn law_bodies_are_planned(q: RequestView, n: usize)
    ensures
        ({
            let plan = q.body_plan();
            let length = q.header("content-length"@);
            let talk = q.path == "/v1/talk"@;
            &&& talk ==> plan == Ok::<BodyPlan, BodyError>(BodyPlan::Nothing)
            &&& !talk && length == Some(text::decimal(n as nat)) && n <= 1048576 ==> plan == Ok::<
                BodyPlan,
                BodyError,
            >(BodyPlan::Bytes(n))
            &&& !talk && length == Some(text::decimal(n as nat)) && n > 1048576 ==> plan == Err::<
                BodyPlan,
                BodyError,
            >(BodyError::TooLarge)
            &&& !talk && length is Some && text::parsed_number(length->0, 10, usize::MAX as nat)
                is None ==> plan == Err::<BodyPlan, BodyError>(BodyError::Length)
            &&& !talk && length is None && q.chunked() ==> plan == Ok::<BodyPlan, BodyError>(
                BodyPlan::Chunked,
            )
            &&& !talk && length is None && !q.chunked() ==> plan == Ok::<BodyPlan, BodyError>(
                BodyPlan::Nothing,
            )
        }),
        q.chunked() <==> q.header("transfer-encoding"@) is Some && text::text_contains(
            text::lowered(q.header("transfer-encoding"@)->0),
            "chunked"@,
        ),
        q.header("content-length"@) == Some(text::decimal(n as nat)) ==> q.declared_length() == Ok::<
            Option<usize>,
            BodyError,
        >(Some(n)),
{
    text::law_number_round_trip(n as nat, 10, usize::MAX as nat);
}

/// What goes wrong with a chunked body: a size line that is no hexadecimal number, more data than
/// the limit, a line of more than 1024 bytes. A size of 0 ends the data; more than may be held at
/// once is read piece by piece.
pub proof fn law_chunk_errors(v: ChunkView, line: Seq<u8>, byte: u8)
    ensures
        ({
            let r = v.with_line(line);
            let size = text::parsed_number(
                text::trimmed(text::before(text::lossy(line.take(line.len() - 2)), ';')),
                16,
                usize::MAX as nat,
            );
            let n = size->0;
            let over = v.limit is Some && v.data.len() + n > v.limit->0;
            v.stage == ChunkStage::Size ==> {
                &&& size is None ==> r == Err::<ChunkView, BodyError>(BodyError::ChunkSize)
                &&& size is Some && n == 0 ==> r is Ok && (r->Ok_0).stage == ChunkStage::Trailer
                &&& size is Some && n > 0 && over ==> r == Err::<ChunkView, BodyError>(
                    BodyError::TooLarge,
                )
                &&& size is Some && n > 0 && !over && n <= v.cap ==> r is Ok && (r->Ok_0).stage
                    == ChunkStage::Data(n as usize)
                &&& size is Some && n > 0 && !over && n > v.cap ==> r is Ok && (r->Ok_0).stage
                    == ChunkStage::Data(v.cap)
                &&& r is Ok ==> (r->Ok_0).data == v.data && (r->Ok_0).line.len() == 0
            }
        }),
        ({
            let r = v.fed(byte);
            let lined = v.stage == ChunkStage::Size || v.stage == ChunkStage::End || v.stage
                == ChunkStage::Trailer;
            let broken = byte == 10 && v.line.len() > 0 && v.line.last() == 13;
            &&& lined && !broken && v.line.len() >= 1024 ==> r == Err::<ChunkView, BodyError>(
                BodyError::LineTooLong,
            )
            &&& lined && !broken && v.line.len() < 1024 ==> r is Ok && (r->Ok_0).line
                == v.line.push(byte) && (r->Ok_0).stage == v.stage && (r->Ok_0).data == v.data
            &&& v.stage matches ChunkStage::Data(left) ==> r is Ok && (r->Ok_0).data
                == v.data.push(byte)
            &&& v.stage == ChunkStage::Done ==> r == Ok::<ChunkView, BodyError>(v)
        }),
{
    let l = v.line.push(byte);
    if l.len() >= 2 {
        let tail = l.skip(l.len() - 2);
        assert(tail[0] == l[l.len() - 2] && tail[1] == byte);
        assert(l[l.len() - 2] == v.line.last());
        if byte == 10 && v.line.last() == 13 {
            assert(tail =~= crlf());
        } else if tail == crlf() {
            assert(crlf()[0] == 13 && crlf()[1] == 10);
        }
    }
}

/// A chunk is its length in hexadecimal, a line break, its bytes and a line break; the last one is
/// a zero and two line breaks.
pub proof fn law_chunks_are_framed(data: Seq<u8>)
    ensures
        chunk_bytes(data) == utf8::encode_utf8(text::number_text(data.len(), 16)) + seq![13u8, 10u8]
            + data + seq![13u8, 10u8],
        last_chunk() == seq![48u8, 13u8, 10u8, 13u8, 10u8],
{
}

/// A reply in full: the status line, the headers in their order, the length of the body, what
/// becomes of the connection, an empty line, and the body. An error is reported in JSON.
pub proof fn law_replies_in_full(
    r: ResponseView,
    keep_alive: bool,
    name: Seq<char>,
    value: Seq<char>,
    fields: Seq<(Seq<char>, Seq<char>)>,
    status: u16,
    error: Seq<char>,
    message: Seq<char>,
)
    ensures
        r.bytes(keep_alive) == utf8::encode_utf8(
            "HTTP/1.1 "@ + text::decimal(r.status as nat) + " "@ + reason_of(r.status) + "\r\n"@
                + field_lines(r.headers) + "Content-Length: "@ + text::decimal(r.body.len())
                + "\r\n"@ + (if keep_alive {
                "Connection: keep-alive\r\n\r\n"@
            } else {
                "Connection: close\r\n\r\n"@
            }),
        ) + r.body,
        field_lines(fields.push((name, value))) == field_lines(fields) + name + ": "@ + value
            + "\r\n"@,
        field_lines(Seq::empty()) == Seq::<char>::empty(),
        r.with_header(name, value).headers == r.headers.push((name, value)),
        r.with_header(name, value).status == r.status,
        r.with_header(name, value).body == r.body,
        ResponseView::error(status, error, message).status == status,
        ResponseView::error(status, error, message).headers == seq![
            ("Content-Type"@, "application/json; v=1"@),
        ],
        reason_of(200) == "OK"@ && reason_of(400) == "Bad Request"@ && reason_of(401)
            == "Unauthorized"@ && reason_of(404) == "Not Found"@ && reason_of(406)
            == "Not Acceptable"@ && reason_of(409) == "Conflict"@ && reason_of(415)
            == "Unsupported Media Type"@ && reason_of(429) == "Too Many Requests"@,
        reason_of(204) == "No Content"@ && reason_of(405) == "Method Not Allowed"@ && reason_of(413)
            == "Payload Too Large"@ && reason_of(500) == "Internal Server Error"@ && reason_of(501)
            == "Not Implemented"@ && reason_of(503) == "Service Unavailable"@,
{
    assert(fields.push((name, value)).drop_last() =~= fields);
}

/// Whether a text holds neither a plus nor a percent sign.
pub open spec fn unescaped(s: Seq<char>) -> bool {
    forall|i: int| 0 <= i < s.len() ==> #[trigger] s[i] != '+' && s[i] != '%'
}

proof fn lemma_unescaped_stays(s: Seq<char>, needle: Seq<char>, with: Seq<char>)
    requires
        unescaped(s),
        needle.len() > 0,
        needle[0] == '+' || needle[0] == '%',
    ensures
        text::replaced(s, needle, with) == s,
{
    assert forall|i: int| 0 <= i < s.len() implies !text::text_begins(
        #[trigger] s.skip(i),
        needle,
    ) by {
        if text::text_begins(s.skip(i), needle) {
            assert(s.skip(i).take(needle.len() as int)[0] == s[i]);
        }
    }
    text::law_replaced_at_occurrences(s, Seq::empty(), needle, with);
}

proof fn lemma_escape_is_replaced(
    a: Seq<char>,
    b: Seq<char>,
    needle: Seq<char>,
    with: Seq<char>,
)
    requires
        unescaped(a) && unescaped(b),
        needle.len() > 0,
        needle[0] == '+' || needle[0] == '%',
    ensures
        text::replaced(a + needle + b, needle, with) == a + with + b,
{
    let s = a + needle + b;
    assert forall|i: int| 0 <= i < a.len() implies !text::text_begins(
        #[trigger] s.skip(i),
        needle,
    ) by {
        if text::text_begins(s.skip(i), needle) {
            assert(s.skip(i).take(needle.len() as int)[0] == a[i]);
        }
    }
    text::law_replaced_at_occurrences(a, b, needle, with);
    lemma_unescaped_stays(b, needle, with);
}

/// In a query a plus is a blank, `%3D` an equals sign and `%2B` a plus; what is not escaped stays.
pub proof fn law_queries_are_decoded(a: Seq<char>, b: Seq<char>)
    requires
        unescaped(a),
        unescaped(b),
    ensures
        query_decoded(a) == a,
        query_decoded(a + seq!['+'] + b) == a + seq![' '] + b,
        query_decoded(a + seq!['%', '3', 'D'] + b) == a + seq!['='] + b,
        query_decoded(a + seq!['%', '2', 'B'] + b) == a + seq!['+'] + b,
{
    let plus = seq!['+'];
    let equals = seq!['%', '3', 'D'];
    let escaped = seq!['%', '2', 'B'];
    lemma_unescaped_stays(a, plus, seq![' ']);
    lemma_unescaped_stays(a, equals, seq!['=']);
    lemma_unescaped_stays(a, escaped, plus);
    lemma_escape_is_replaced(a, b, plus, seq![' ']);
    let spaced = a + seq![' '] + b;
    assert(unescaped(spaced)) by {
        lemma_unescaped_joined(a, ' ', b);
    }
    lemma_unescaped_stays(spaced, equals, seq!['=']);
    lemma_unescaped_stays(spaced, escaped, plus);
    lemma_no_plus(a, equals, b, seq![' ']);
    lemma_escape_is_replaced(a, b, equals, seq!['=']);
    let equal = a + seq!['='] + b;
    assert(unescaped(equal)) by {
        lemma_unescaped_joined(a, '=', b);
    }
    lemma_unescaped_stays(equal, escaped, plus);
    lemma_no_plus(a, escaped, b, seq![' ']);
    lemma_other_escape(a, b);
    lemma_escape_is_replaced(a, b, escaped, plus);
}

proof fn lemma_unescaped_joined(a: Seq<char>, c: char, b: Seq<char>)
    requires
        unescaped(a) && unescaped(b),
        c != '+' && c != '%',
    ensures
        unescaped(a + seq![c] + b),
{
    let s = a + seq![c] + b;
    assert forall|i: int| 0 <= i < s.len() implies #[trigger] s[i] != '+' && s[i] != '%' by {
        if i < a.len() {
            assert(s[i] == a[i]);
        } else if i > a.len() {
            assert(s[i] == b[i - a.len() - 1]);
        }
    }
}

proof fn lemma_no_plus(a: Seq<char>, escape: Seq<char>, b: Seq<char>, with: Seq<char>)
    requires
        unescaped(a) && unescaped(b),
        escape.len() == 3,
        escape[0] != '+' && escape[1] != '+' && escape[2] != '+',
    ensures
        text::replaced(a + escape + b, seq!['+'], with) == a + escape + b,
{
    let s = a + escape + b;
    let needle = seq!['+'];
    assert forall|i: int| 0 <= i < s.len() implies !text::text_begins(
        #[trigger] s.skip(i),
        needle,
    ) by {
        if text::text_begins(s.skip(i), needle) {
            assert(s.skip(i).take(1)[0] == s[i]);
            if i < a.len() {
                assert(s[i] == a[i]);
            } else if i < a.len() + 3 {
                assert(s[i] == escape[i - a.len()]);
            } else {
                assert(s[i] == b[i - a.len() - 3]);
            }
        }
    }
    text::law_replaced_at_occurrences(s, Seq::empty(), needle, with);
}

proof fn lemma_other_escape(a: Seq<char>, b: Seq<char>)
    requires
        unescaped(a) && unescaped(b),
    ensures
        text::replaced(a + seq!['%', '2', 'B'] + b, seq!['%', '3', 'D'], seq!['=']) == a + seq![
            '%',
            '2',
            'B',
        ] + b,
{
    let s = a + seq!['%', '2', 'B'] + b;
    let needle = seq!['%', '3', 'D'];
    assert forall|i: int| 0 <= i < s.len() implies !text::text_begins(
        #[trigger] s.skip(i),
        needle,
    ) by {
        if text::text_begins(s.skip(i), needle) {
            let t = s.skip(i).take(3);
            assert(t[0] == s[i] && t[1] == s[i + 1]);
            assert(t[0] == '%' && t[1] == '3');
            if i < a.len() {
                assert(s[i] == a[i]);
            } else if i == a.len() {
                assert(s[i + 1] == '2');
            } else if i < a.len() + 3 {
            } else {
                assert(s[i] == b[i - a.len() - 3]);
            }
        }
    }
    text::law_replaced_at_occurrences(s, Seq::empty(), needle, seq!['=']);
}

/// A parameter of the query is what stands behind the first equals sign of the first pair with its
/// name, decoded.
pub proof fn law_first_parameter_counts(
    before: Seq<Seq<char>>,
    name: Seq<char>,
    value: Seq<char>,
    after: Seq<Seq<char>>,
)
    requires
        forall|i: int| 0 <= i < name.len() ==> #[trigger] name[i] != '=',
        forall|i: int|
            0 <= i < before.len() ==> (text::split_once(#[trigger] before[i], '=') is None
                || (text::split_once(before[i], '=')->0).0 != name),
    ensures
        parameter(before, name) is None,
        parameter(before.push(name.push('=') + value) + after, name) == Some(query_decoded(value)),
    decreases before.len(),
{
    let pair = name.push('=') + value;
    let all = before.push(pair) + after;
    text::law_split_once_cuts_first(name, '=', value);
    if before.len() == 0 {
        assert(all[0] == pair);
    } else {
        let rest = before.drop_first();
        assert(text::split_once(before[0], '=') is None || (text::split_once(before[0], '=')->0).0
            != name);
        assert forall|i: int| 0 <= i < rest.len() implies (text::split_once(
            #[trigger] rest[i],
            '=',
        ) is None || (text::split_once(rest[i], '=')->0).0 != name) by {
            assert(rest[i] == before[i + 1]);
        }
        assert(all[0] == before[0]);
        assert(all.drop_first() =~= rest.push(pair) + after);
        law_first_parameter_counts(rest, name, value, after);
    }
}

/// Headers and parameters of a request are looked up in its own headers and in the pairs of its
/// query, which stand between ampersands.
pub proof fn law_requests_are_looked_up(q: RequestView, name: Seq<char>, value: Seq<char>)
    ensures
        q.header(name) == field(q.headers, name),
        q.query_param(name) == parameter(text::split(q.query, '&'), name),
        q.header_is(name, value) <==> q.header(name) is Some && text::lowered(q.header(name)->0)
            == text::lowered(value),
{
}

} // verus!
