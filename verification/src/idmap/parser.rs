use crate::global_id::{is_id_continue, is_id_start};
use crate::idmap::id::IdKind;
use crate::text::{chars_of, decimal, decimal_string, string_of};
use vstd::prelude::*;
use vstd::string::StringExecFns;

verus! {

/// `std::io::Error`, the error of a failure to read. Nothing is known of a
/// value.
#[verifier::external_type_specification]
#[verifier::external_body]
pub struct ExIoError(std::io::Error);

#[derive(Debug)]
pub enum ErrorKind {
    /// A character that the grammar does not allow where it stands, with its
    /// column: the number of characters of its row that stand before it.
    InvalidChar(usize, char),
    /// The text ends in the middle of a row.
    UnexpectedEOL,
    /// The text could not be read.
    IOError(std::io::Error),
}

#[derive(Debug)]
pub struct ParseError {
    /// What went wrong.
    pub kind: ErrorKind,
    /// The line of the row that went wrong, counted from one; zero where the
    /// error belongs to no row.
    pub line_num: usize,
}

impl ParseError {
    pub fn new(kind: ErrorKind) -> (e: Self)
        ensures
            e.kind == kind,
            e.line_num == 0,
    {
        Self { kind, line_num: 0 }
    }

    pub fn with_line_num(self, line_num: usize) -> (e: Self)
        ensures
            e.kind == self.kind,
            e.line_num == line_num,
    {
        Self { kind: self.kind, line_num }
    }

    /// The message for an error other than `IOError`.
    pub open spec fn message_text(&self) -> Seq<char> {
        match self.kind {
            ErrorKind::InvalidChar(pos, c) => "Invalid char '"@ + decimal(self.line_num as nat)
                + "' at ["@ + decimal(pos as nat) + ";"@ + seq![c] + "]"@,
            ErrorKind::UnexpectedEOL => "Unexpected end of line "@ + decimal(
                self.line_num as nat,
            ),
            ErrorKind::IOError(_) => Seq::empty(),
        }
    }

    /// The message that describes the error. That of an `IOError` is the
    /// description that the system gives.
    pub fn message(&self) -> (s: String)
        ensures
            !(self.kind is IOError) ==> s@ == self.message_text(),
    {
        match &self.kind {
            ErrorKind::InvalidChar(pos, c) => {
                let mut s = String::from_str("Invalid char '");
                s.append(decimal_string(self.line_num).as_str());
                s.append("' at [");
                s.append(decimal_string(*pos).as_str());
                s.append(";");
                s.push(*c);
                s.append("]");
                assert(s@ =~= self.message_text());
                s
            },
            ErrorKind::UnexpectedEOL => {
                let mut s = String::from_str("Unexpected end of line ");
                s.append(decimal_string(self.line_num).as_str());
                s
            },
            ErrorKind::IOError(err) => io_error_message(err),
        }
    }
}

/// The description that `std::io::Error` gives of itself through
/// `to_string`. Nothing is claimed of the text.
#[verifier::external_body]
pub(crate) fn io_error_message(err: &std::io::Error) -> String {
    err.to_string()
}

impl From<std::io::Error> for ParseError {
    fn from(value: std::io::Error) -> (e: Self) {
        ParseError { kind: ErrorKind::IOError(value), line_num: 0 }
    }
}

impl vstd::std_specs::convert::FromSpecImpl<std::io::Error> for ParseError {
    open spec fn obeys_from_spec() -> bool {
        true
    }

    open spec fn from_spec(value: std::io::Error) -> ParseError {
        ParseError { kind: ErrorKind::IOError(value), line_num: 0 }
    }
}

pub type ParseResult<V> = Result<V, ParseError>;

/// The three fields that follow the kind in a row.
pub enum Field {
    Module,
    Local,
    Global,
}

/// An ASCII letter.
pub open spec fn is_letter(c: char) -> bool {
    ('a' <= c && c <= 'z') || ('A' <= c && c <= 'Z')
}

/// An ASCII digit.
pub open spec fn is_digit(c: char) -> bool {
    '0' <= c && c <= '9'
}

impl Field {
    /// Whether `c` may be the first character of the field.
    pub open spec fn starts(self, c: char) -> bool {
        match self {
            Field::Module => is_letter(c) || is_digit(c) || c == '_',
            Field::Local => is_letter(c) || c == '_',
            Field::Global => is_id_start(c),
        }
    }

    /// Whether `c` may follow the first character of the field.
    pub open spec fn continues(self, c: char) -> bool {
        match self {
            Field::Module => is_letter(c) || is_digit(c) || c == '_' || c == '-' || c == '/',
            Field::Local => is_letter(c) || is_digit(c) || c == '_',
            Field::Global => is_id_continue(c),
        }
    }

    /// The character that ends the field.
    pub open spec fn terminator(self) -> char {
        match self {
            Field::Module => ',',
            Field::Local => ',',
            Field::Global => '\n',
        }
    }

    /// Whether `s` is a value of the field.
    pub open spec fn accepts(self, s: Seq<char>) -> bool {
        &&& s.len() >= 1
        &&& self.starts(s[0])
        &&& forall|k: int| 1 <= k < s.len() ==> self.continues(#[trigger] s[k])
    }
}

/// The end of the longest run of characters from `p` on that may continue
/// the field.
pub open spec fn run_end(text: Seq<char>, p: int, field: Field) -> int
    decreases text.len() - p,
{
    if 0 <= p < text.len() && field.continues(text[p]) {
        run_end(text, p + 1, field)
    } else {
        p
    }
}

pub proof fn lemma_run_end(text: Seq<char>, p: int, field: Field)
    requires
        0 <= p <= text.len(),
    ensures
        p <= run_end(text, p, field) <= text.len(),
        forall|k: int| p <= k < run_end(text, p, field) ==> field.continues(#[trigger] text[k]),
        run_end(text, p, field) < text.len() ==> !field.continues(text[run_end(text, p, field)]),
    decreases text.len() - p,
{
    if p < text.len() && field.continues(text[p]) {
        lemma_run_end(text, p + 1, field);
    }
}

/// What stands at a place in the text where a field is due.
pub enum FieldScan {
    /// The field, and the place after its terminator.
    Found { value: Seq<char>, next: int },
    /// No field, and the place after the character that says so.
    Fail { kind: ErrorKind, next: int },
}

/// The column of the character at `p` in the row that begins at `row`.
pub open spec fn column_of(row: int, p: int) -> usize {
    (p - row) as usize
}

/// Reads the field that starts at `p`, in the row that begins at `row`: a
/// first character, the longest run of further ones, and the terminator.
/// The last field of a row may also end with the text.
pub open spec fn scan_field(text: Seq<char>, row: int, p: int, field: Field) -> FieldScan {
    if p >= text.len() {
        FieldScan::Fail { kind: ErrorKind::UnexpectedEOL, next: p }
    } else if !field.starts(text[p]) {
        FieldScan::Fail { kind: ErrorKind::InvalidChar(column_of(row, p), text[p]), next: p + 1 }
    } else {
        let e = run_end(text, p + 1, field);
        if e >= text.len() {
            if field is Global {
                FieldScan::Found { value: text.subrange(p, e), next: e }
            } else {
                FieldScan::Fail { kind: ErrorKind::UnexpectedEOL, next: e }
            }
        } else if text[e] == field.terminator() {
            FieldScan::Found { value: text.subrange(p, e), next: e + 1 }
        } else {
            FieldScan::Fail {
                kind: ErrorKind::InvalidChar(column_of(row, e), text[e]),
                next: e + 1,
            }
        }
    }
}

/// What stands at a place in the text where a row may begin.
#[allow(inconsistent_fields)]
pub enum KindScan {
    /// The text ends here.
    End,
    /// The kind of a row, and the place after the comma that follows it.
    Found { kind: IdKind, next: int },
    /// No row, and the place after the character that says so.
    Fail { kind: ErrorKind, next: int },
}

/// Reads the letter of the kind and the comma after it, where a row begins
/// at `p`.
pub open spec fn scan_kind(text: Seq<char>, p: int) -> KindScan {
    if p >= text.len() {
        KindScan::End
    } else {
        match IdKind::of_letter(text[p]) {
            None => KindScan::Fail {
                kind: ErrorKind::InvalidChar(0, text[p]),
                next: p + 1,
            },
            Some(kind) => if p + 1 >= text.len() {
                KindScan::Fail { kind: ErrorKind::UnexpectedEOL, next: p + 1 }
            } else if text[p + 1] != ',' {
                KindScan::Fail {
                    kind: ErrorKind::InvalidChar(1, text[p + 1]),
                    next: p + 2,
                }
            } else {
                KindScan::Found { kind, next: p + 2 }
            },
        }
    }
}

/// What stands at a place in the text where a row may begin.
#[allow(inconsistent_fields)]
pub enum RowScan {
    /// The text ends here.
    End,
    /// A row, and the place after it.
    Row { kind: IdKind, module_id: Seq<char>, local_id: Seq<char>, global_id: Seq<char>, next: int },
    /// No row, and the place after the character that says so.
    Fail { kind: ErrorKind, next: int },
}

/// Reads the row that starts at `p`: the kind and the three fields.
pub open spec fn scan_row(text: Seq<char>, p: int) -> RowScan {
    match scan_kind(text, p) {
        KindScan::End => RowScan::End,
        KindScan::Fail { kind, next } => RowScan::Fail { kind, next },
        KindScan::Found { kind, next: m } => match scan_field(text, p, m, Field::Module) {
            FieldScan::Fail { kind, next } => RowScan::Fail { kind, next },
            FieldScan::Found { value: module_id, next: l } => match scan_field(
                text,
                p,
                l,
                Field::Local,
            ) {
                FieldScan::Fail { kind, next } => RowScan::Fail { kind, next },
                FieldScan::Found { value: local_id, next: g } => match scan_field(
                    text,
                    p,
                    g,
                    Field::Global,
                ) {
                    FieldScan::Fail { kind, next } => RowScan::Fail { kind, next },
                    FieldScan::Found { value: global_id, next } => RowScan::Row {
                        kind,
                        module_id,
                        local_id,
                        global_id,
                        next,
                    },
                },
            },
        },
    }
}

/// A field that was read fits its grammar and lies before the place where
/// reading goes on.
pub proof fn lemma_scan_field(text: Seq<char>, row: int, p: int, field: Field)
    requires
        0 <= p <= text.len(),
    ensures
        match scan_field(text, row, p, field) {
            FieldScan::Found { value, next } => p < next <= text.len() && field.accepts(value),
            FieldScan::Fail { kind, next } => p <= next <= text.len(),
        },
{
    if p < text.len() && field.starts(text[p]) {
        lemma_run_end(text, p + 1, field);
        let e = run_end(text, p + 1, field);
        let value = text.subrange(p, e);
        assert forall|k: int| 1 <= k < value.len() implies field.continues(#[trigger] value[k]) by {
            assert(value[k] == text[p + k]);
        }
    }
}

/// The fields of a row fit their grammars; in particular none is empty.
pub proof fn lemma_scan_row(text: Seq<char>, p: int)
    requires
        0 <= p <= text.len(),
    ensures
        match scan_row(text, p) {
            RowScan::End => p == text.len(),
            RowScan::Row { kind, module_id, local_id, global_id, next } => {
                &&& p + 2 < next <= text.len()
                &&& Field::Module.accepts(module_id)
                &&& Field::Local.accepts(local_id)
                &&& Field::Global.accepts(global_id)
            },
            RowScan::Fail { kind, next } => p < next <= text.len() || (p == next && kind
                is UnexpectedEOL),
        },
{
    if let KindScan::Found { kind, next: m } = scan_kind(text, p) {
        lemma_scan_field(text, p, m, Field::Module);
        if let FieldScan::Found { value, next: l } = scan_field(text, p, m, Field::Module) {
            lemma_scan_field(text, p, l, Field::Local);
            if let FieldScan::Found { value, next: g } = scan_field(text, p, l, Field::Local) {
                lemma_scan_field(text, p, g, Field::Global);
            }
        }
    }
}

pub struct ScannerView {
    pub text: Seq<char>,
    /// The index of the next character.
    pub pos: int,
    /// The index at which the row began that is being read.
    pub row: int,
}

/// A text, a place in it, and the place where the row of that place began.
pub struct Scanner {
    text: Vec<char>,
    pos: usize,
    row: usize,
}

impl View for Scanner {
    type V = ScannerView;

    closed spec fn view(&self) -> ScannerView {
        ScannerView { text: self.text@, pos: self.pos as int, row: self.row as int }
    }
}

impl Scanner {
    pub closed spec fn wf(&self) -> bool {
        self.row <= self.pos <= self.text.len()
    }

    pub proof fn lemma_wf(&self)
        requires
            self.wf(),
        ensures
            0 <= self@.row <= self@.pos <= self@.text.len(),
    {
    }

    /// A scanner at the start of `s`.
    pub fn new(s: &str) -> (sc: Self)
        ensures
            sc.wf(),
            sc@ == (ScannerView { text: s@, pos: 0, row: 0 }),
    {
        Scanner { text: chars_of(s), pos: 0, row: 0 }
    }

    /// Says that a row begins at the next character.
    fn begin_row(&mut self)
        requires
            old(self).wf(),
        ensures
            final(self).wf(),
            final(self)@ == (ScannerView { row: old(self)@.pos, ..old(self)@ }),
    {
        self.row = self.pos;
    }

    /// The next character with its column, if any is left.
    fn next(&mut self) -> (r: Option<(usize, char)>)
        requires
            old(self).wf(),
        ensures
            final(self).wf(),
            final(self)@.text == old(self)@.text,
            final(self)@.row == old(self)@.row,
            match r {
                None => old(self)@.pos >= old(self)@.text.len() && final(self)@.pos == old(self)@.pos,
                Some((i, c)) => {
                    &&& old(self)@.pos < old(self)@.text.len()
                    &&& i == column_of(old(self)@.row, old(self)@.pos)
                    &&& c == old(self)@.text[old(self)@.pos]
                    &&& final(self)@.pos == old(self)@.pos + 1
                },
            },
    {
        if self.pos < self.text.len() {
            let c = self.text[self.pos];
            let i = self.pos - self.row;
            self.pos = self.pos + 1;
            Some((i, c))
        } else {
            None
        }
    }
}

fn is_letter_char(c: char) -> (b: bool)
    ensures
        b == is_letter(c),
{
    ('a' <= c && c <= 'z') || ('A' <= c && c <= 'Z')
}

fn is_digit_char(c: char) -> (b: bool)
    ensures
        b == is_digit(c),
{
    '0' <= c && c <= '9'
}

fn field_starts(field: &Field, c: char) -> (b: bool)
    ensures
        b == field.starts(c),
{
    match field {
        Field::Module => is_letter_char(c) || is_digit_char(c) || c == '_',
        Field::Local => is_letter_char(c) || c == '_',
        Field::Global => is_letter_char(c),
    }
}

fn field_continues(field: &Field, c: char) -> (b: bool)
    ensures
        b == field.continues(c),
{
    match field {
        Field::Module => is_letter_char(c) || is_digit_char(c) || c == '_' || c == '-' || c == '/',
        Field::Local => is_letter_char(c) || is_digit_char(c) || c == '_',
        Field::Global => is_letter_char(c) || is_digit_char(c) || c == '_' || c == '-',
    }
}

/// What `parse_field` owes for the text and place that it started from.
pub open spec fn field_parsed(
    before: ScannerView,
    field: Field,
    after: ScannerView,
    r: ParseResult<String>,
) -> bool {
    &&& after.text == before.text
    &&& after.row == before.row
    &&& match scan_field(before.text, before.row, before.pos, field) {
        FieldScan::Found { value, next } => {
            &&& r matches Ok(s)
            &&& s@ == value
            &&& after.pos == next
        },
        FieldScan::Fail { kind, next } => {
            &&& r matches Err(e)
            &&& e.kind == kind
            &&& e.line_num == 0
            &&& after.pos == next
        },
    }
}

/// Reads one field and its terminator.
fn parse_field(iter: &mut Scanner, field: Field) -> (r: ParseResult<String>)
    requires
        old(iter).wf(),
    ensures
        final(iter).wf(),
        field_parsed(old(iter)@, field, final(iter)@, r),
{
    let start: usize = iter.pos;
    if let Some((i, c)) = iter.next() {
        if field_starts(&field, c) {
            let ghost text = iter@.text;
            loop
                invariant
                    iter.wf(),
                    iter@.text == text,
                    text == old(iter)@.text,
                    iter@.row == old(iter)@.row,
                    start == old(iter)@.pos,
                    start < iter@.pos <= text.len(),
                    field.starts(text[start as int]),
                    run_end(text, start + 1, field) == run_end(text, iter@.pos, field),
                decreases text.len() - iter@.pos,
            {
                let end: usize = iter.pos;
                match iter.next() {
                    None => {
                        if let Field::Global = field {
                            let s = string_of(&iter.text, start, end);
                            return Ok(s);
                        } else {
                            return Err(ParseError::new(ErrorKind::UnexpectedEOL));
                        }
                    },
                    Some((i, c)) => {
                        if field_continues(&field, c) {
                        } else if c == (match field {
                            Field::Global => '\n',
                            _ => ',',
                        }) {
                            let s = string_of(&iter.text, start, end);
                            return Ok(s);
                        } else {
                            return Err(ParseError::new(ErrorKind::InvalidChar(i, c)));
                        }
                    },
                }
            }
        } else {
            Err(ParseError::new(ErrorKind::InvalidChar(i, c)))
        }
    } else {
        Err(ParseError::new(ErrorKind::UnexpectedEOL))
    }
}

/// Reads the letter of the kind and the comma after it, and so begins a
/// row. The number in the result is 2 where a row begins and 0 where the
/// text ends.
pub fn parse_id_kind(iter: &mut Scanner) -> (r: ParseResult<(usize, IdKind)>)
    requires
        old(iter).wf(),
    ensures
        final(iter).wf(),
        final(iter)@.text == old(iter)@.text,
        final(iter)@.row == old(iter)@.pos,
        match scan_kind(old(iter)@.text, old(iter)@.pos) {
            KindScan::End => r == Ok::<(usize, IdKind), ParseError>((0usize, IdKind::Class)) && final(iter)@.pos
                == old(iter)@.pos,
            KindScan::Found { kind, next } => r == Ok::<(usize, IdKind), ParseError>((2usize, kind))
                && final(iter)@.pos == next,
            KindScan::Fail { kind, next } => {
                &&& r matches Err(e)
                &&& e.kind == kind
                &&& e.line_num == 0
                &&& final(iter)@.pos == next
            },
        },
{
    iter.begin_row();
    let kind = if let Some((i, c)) = iter.next() {
        if c == 'C' {
            IdKind::Class
        } else if c == 'V' {
            IdKind::Var
        } else if c == 'K' {
            IdKind::Keyframes
        } else {
            return Err(ParseError::new(ErrorKind::InvalidChar(i, c)));
        }
    } else {
        return Ok((0, IdKind::Class));
    };
    if let Some((i, c)) = iter.next() {
        if c == ',' {
            Ok((2, kind))
        } else {
            Err(ParseError::new(ErrorKind::InvalidChar(i, c)))
        }
    } else {
        Err(ParseError::new(ErrorKind::UnexpectedEOL))
    }
}

/// Reads the name of a module and the comma after it, in the row that the
/// scanner is in.
pub fn parse_module_id(iter: &mut Scanner) -> (r: ParseResult<String>)
    requires
        old(iter).wf(),
    ensures
        final(iter).wf(),
        field_parsed(old(iter)@, Field::Module, final(iter)@, r),
{
    parse_field(iter, Field::Module)
}

/// Reads a local name and the comma after it, in the row that the scanner
/// is in.
pub fn parse_local_id(iter: &mut Scanner) -> (r: ParseResult<String>)
    requires
        old(iter).wf(),
    ensures
        final(iter).wf(),
        field_parsed(old(iter)@, Field::Local, final(iter)@, r),
{
    parse_field(iter, Field::Local)
}

/// Reads a global identifier and the end of the line or of the text, in the
/// row that the scanner is in.
pub fn parse_global_id(iter: &mut Scanner) -> (r: ParseResult<String>)
    requires
        old(iter).wf(),
    ensures
        final(iter).wf(),
        field_parsed(old(iter)@, Field::Global, final(iter)@, r),
{
    parse_field(iter, Field::Global)
}

/// What `parse_line` owes for the text and place that it started from.
pub open spec fn line_parsed(
    before: ScannerView,
    after: ScannerView,
    r: ParseResult<Option<(IdKind, String, String, String)>>,
) -> bool {
    &&& after.text == before.text
    &&& after.row == before.pos
    &&& match scan_row(before.text, before.pos) {
        RowScan::End => r matches Ok(None) && after.pos == before.pos,
        RowScan::Row { kind, module_id, local_id, global_id, next } => {
            &&& r matches Ok(Some(row))
            &&& row.0 == kind
            &&& row.1@ == module_id
            &&& row.2@ == local_id
            &&& row.3@ == global_id
            &&& after.pos == next
        },
        RowScan::Fail { kind, next } => {
            &&& r matches Err(e)
            &&& e.kind == kind
            &&& e.line_num == 0
            &&& after.pos == next
        },
    }
}

/// Reads the row that begins at the place of the scanner: its kind, the
/// module, the local name and the global identifier. `None` says that the
/// text has ended.
pub fn parse_line(iter: &mut Scanner) -> (r: ParseResult<Option<(IdKind, String, String, String)>>)
    requires
        old(iter).wf(),
    ensures
        final(iter).wf(),
        line_parsed(old(iter)@, final(iter)@, r),
{
    let (n, kind) = match parse_id_kind(iter) {
        Ok(found) => found,
        Err(e) => {
            return Err(e);
        },
    };
    if n == 2 {
        let module_id = match parse_module_id(iter) {
            Ok(s) => s,
            Err(e) => {
                return Err(e);
            },
        };
        let local_id = match parse_local_id(iter) {
            Ok(s) => s,
            Err(e) => {
                return Err(e);
            },
        };
        let global_id = match parse_global_id(iter) {
            Ok(s) => s,
            Err(e) => {
                return Err(e);
            },
        };
        Ok(Some((kind, module_id, local_id, global_id)))
    } else {
        Ok(None)
    }
}

pub struct ParserView {
    pub text: Seq<char>,
    /// The index of the next character.
    pub pos: int,
    /// The number of the row that comes next, counted from one.
    pub line_num: nat,
    /// The module of the row before, or nothing before the first row.
    pub prev_module_id: Seq<char>,
}

/// Reads the rows of a persistent map one by one.
pub struct Parser {
    iter: Scanner,
    line_num: usize,
    prev_module_id: String,
}

impl View for Parser {
    type V = ParserView;

    closed spec fn view(&self) -> ParserView {
        ParserView {
            text: self.iter@.text,
            pos: self.iter@.pos,
            line_num: self.line_num as nat,
            prev_module_id: self.prev_module_id@,
        }
    }
}

impl Parser {
    pub closed spec fn wf(&self) -> bool {
        &&& self.iter.wf()
        &&& 1 <= self.line_num <= self.iter@.pos + 1
    }

    pub proof fn lemma_wf(&self)
        requires
            self.wf(),
        ensures
            0 <= self@.pos <= self@.text.len(),
            1 <= self@.line_num <= self@.pos + 1,
            self@.line_num <= usize::MAX,
    {
        self.iter.lemma_wf();
    }

    pub fn new(s: &str) -> (p: Self)
        ensures
            p.wf(),
            p@ == (ParserView { text: s@, pos: 0, line_num: 1, prev_module_id: Seq::empty() }),
    {
        Self { iter: Scanner::new(s), line_num: 1, prev_module_id: String::new() }
    }

    /// Reads the next row. The module of a row is `None` where it is that of
    /// the row before. An error carries the number of the row it stands in.
    pub fn next_id(&mut self) -> (r: Result<
        Option<(IdKind, Option<String>, String, String)>,
        ParseError,
    >)
        requires
            old(self).wf(),
        ensures
            final(self).wf(),
            final(self)@.text == old(self)@.text,
            match scan_row(old(self)@.text, old(self)@.pos) {
                RowScan::End => r matches Ok(None) && final(self)@ == old(self)@,
                RowScan::Row { kind, module_id, local_id, global_id, next } => {
                    &&& r matches Ok(Some(row))
                    &&& row.0 == kind
                    &&& (row.1 is None <==> module_id == old(self)@.prev_module_id)
                    &&& (row.1 matches Some(m) ==> m@ == module_id)
                    &&& row.2@ == local_id
                    &&& row.3@ == global_id
                    &&& final(self)@ == (ParserView {
                        text: old(self)@.text,
                        pos: next,
                        line_num: old(self)@.line_num + 1,
                        prev_module_id: module_id,
                    })
                },
                RowScan::Fail { kind, next } => {
                    &&& r matches Err(e)
                    &&& e.kind == kind
                    &&& e.line_num == old(self)@.line_num
                    &&& final(self)@ == (ParserView { pos: next, ..old(self)@ })
                },
            },
            old(self)@.prev_module_id.len() == 0 ==> (r matches Ok(Some(row)) ==> row.1 is Some),
    {
        proof {
            self.iter.lemma_wf();
            lemma_scan_row(self.iter@.text, self.iter@.pos);
        }
        match parse_line(&mut self.iter) {
            Err(err) => Err(err.with_line_num(self.line_num)),
            Ok(None) => Ok(None),
            Ok(Some((kind, module_id, local_id, global_id))) => {
                let module_id = if self.prev_module_id == module_id {
                    None
                } else {
                    self.prev_module_id = module_id.clone();
                    Some(module_id)
                };
                self.line_num += 1;
                Ok(Some((kind, module_id, local_id, global_id)))
            },
        }
    }
}

} // verus!
