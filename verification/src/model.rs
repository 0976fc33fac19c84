//! The text format models are read from: a subset of Wavefront OBJ.
//!
//! A model file is a sequence of lines. This module classifies a line,
//! splits it into fields, reads the corners of a face line and resolves
//! corner indices against the attribute lists. Reading the file and the
//! decimal fractions of the attribute lines is left to the caller.

use vstd::prelude::*;
use vstd::std_specs::convert::FromSpecImpl;
use vstd::string::StrSliceExecFns;
use std::num::{ParseFloatError, ParseIntError};

verus! {

/// `std::num::ParseIntError`, carried through as an opaque value.
#[verifier::external_type_specification]
#[verifier::external_body]
pub struct ExParseIntError(ParseIntError);

/// `std::num::ParseFloatError`, carried through as an opaque value.
#[verifier::external_type_specification]
#[verifier::external_body]
pub struct ExParseFloatError(ParseFloatError);

/// Why a model could not be read.
#[derive(Debug)]
pub enum ModelError {
    /// The file could not be opened or read.
    IoError(std::io::Error),
    /// A coordinate is no decimal fraction.
    ParseFloatError(ParseFloatError),
    /// An index is no whole number.
    ParseIntError(ParseIntError),
    /// A line has the wrong number of fields, or an index points nowhere.
    SyntaxError,
}

impl From<std::io::Error> for ModelError {
    fn from(error: std::io::Error) -> (e: ModelError) {
        ModelError::IoError(error)
    }
}

impl FromSpecImpl<std::io::Error> for ModelError {
    open spec fn obeys_from_spec() -> bool {
        true
    }

    open spec fn from_spec(error: std::io::Error) -> ModelError {
        ModelError::IoError(error)
    }
}

impl From<ParseFloatError> for ModelError {
    fn from(error: ParseFloatError) -> (e: ModelError) {
        ModelError::ParseFloatError(error)
    }
}

impl FromSpecImpl<ParseFloatError> for ModelError {
    open spec fn obeys_from_spec() -> bool {
        true
    }

    open spec fn from_spec(error: ParseFloatError) -> ModelError {
        ModelError::ParseFloatError(error)
    }
}

impl From<ParseIntError> for ModelError {
    fn from(error: ParseIntError) -> (e: ModelError) {
        ModelError::ParseIntError(error)
    }
}

impl FromSpecImpl<ParseIntError> for ModelError {
    open spec fn obeys_from_spec() -> bool {
        true
    }

    open spec fn from_spec(error: ParseIntError) -> ModelError {
        ModelError::ParseIntError(error)
    }
}

/// The characters that separate fields: the code points with the Unicode
/// property `White_Space`.
pub open spec fn is_space(c: char) -> bool {
    let code = c as u32;
    ||| 0x09 <= code <= 0x0D
    ||| code == 0x20
    ||| code == 0x85
    ||| code == 0xA0
    ||| code == 0x1680
    ||| 0x2000 <= code <= 0x200A
    ||| code == 0x2028
    ||| code == 0x2029
    ||| code == 0x202F
    ||| code == 0x205F
    ||| code == 0x3000
}

/// Whether a character separates fields.
pub fn is_space_char(c: char) -> (b: bool)
    ensures
        b == is_space(c),
{
    let code: u32 = c as u32;
    (0x09 <= code && code <= 0x0D) || code == 0x20 || code == 0x85 || code == 0xA0 || code
        == 0x1680 || (0x2000 <= code && code <= 0x200A) || code == 0x2028 || code == 0x2029
        || code == 0x202F || code == 0x205F || code == 0x3000
}

/// The first position at or after `from` that holds no space; the length
/// of `s` when only spaces follow.
pub open spec fn skip_spaces(s: Seq<char>, from: int) -> int
    decreases s.len() - from,
{
    if 0 <= from < s.len() && is_space(s[from]) {
        skip_spaces(s, from + 1)
    } else {
        from
    }
}

/// The first position at or after `from` that holds a space; the length of
/// `s` when none follows.
pub open spec fn skip_field(s: Seq<char>, from: int) -> int
    decreases s.len() - from,
{
    if 0 <= from < s.len() && !is_space(s[from]) {
        skip_field(s, from + 1)
    } else {
        from
    }
}

proof fn lemma_skip_bounds(s: Seq<char>, from: int)
    requires
        0 <= from <= s.len(),
    ensures
        from <= skip_spaces(s, from) <= s.len(),
        from <= skip_field(s, from) <= s.len(),
        skip_spaces(s, from) < s.len() ==> !is_space(s[skip_spaces(s, from)]),
        skip_field(s, from) < s.len() ==> is_space(s[skip_field(s, from)]),
    decreases s.len() - from,
{
    if from < s.len() {
        lemma_skip_bounds(s, from + 1);
    }
}

/// The fields of `s` that begin at or after `from`: the maximal runs of
/// characters other than spaces, in the order they occur.
pub open spec fn fields_from(s: Seq<char>, from: int) -> Seq<Seq<char>>
    decreases s.len() - from,
    via fields_from_terminates
{
    if 0 <= from <= s.len() {
        let start = skip_spaces(s, from);
        if start >= s.len() {
            Seq::empty()
        } else {
            let end = skip_field(s, start);
            seq![s.subrange(start, end)] + fields_from(s, end)
        }
    } else {
        Seq::empty()
    }
}

#[via_fn]
proof fn fields_from_terminates(s: Seq<char>, from: int) {
    if 0 <= from <= s.len() {
        let start = skip_spaces(s, from);
        lemma_skip_bounds(s, from);
        if start < s.len() {
            lemma_skip_bounds(s, start + 1);
        }
    }
}

/// The fields of a line, separated by runs of spaces.
pub open spec fn fields_of(s: Seq<char>) -> Seq<Seq<char>> {
    fields_from(s, 0)
}

/// The views of a list of string slices.
pub open spec fn texts(fields: Seq<&str>) -> Seq<Seq<char>> {
    fields.map_values(|f: &str| f@)
}

/// Splits a line into its fields.
pub fn split_fields<'a>(line: &'a str) -> (fields: Vec<&'a str>)
    ensures
        texts(fields@) == fields_of(line@),
{
    let n: usize = line.unicode_len();
    let mut fields: Vec<&'a str> = Vec::new();
    let mut i: usize = 0;
    assert(texts(fields@) =~= Seq::<Seq<char>>::empty());
    loop
        invariant_except_break
            texts(fields@) + fields_from(line@, i as int) == fields_of(line@),
        invariant
            i <= n,
            n == line@.len(),
        ensures
            texts(fields@) == fields_of(line@),
        decreases n - i,
    {
        let ghost from: int = i as int;
        while i < n && is_space_char(line.get_char(i))
            invariant
                from <= i <= n,
                n == line@.len(),
                skip_spaces(line@, from) == skip_spaces(line@, i as int),
            decreases n - i,
        {
            i += 1;
        }
        if i >= n {
            assert(fields_from(line@, from) =~= Seq::<Seq<char>>::empty());
            assert(texts(fields@) + Seq::<Seq<char>>::empty() =~= texts(fields@));
            break ;
        }
        let start: usize = i;
        while i < n && !is_space_char(line.get_char(i))
            invariant
                start <= i <= n,
                n == line@.len(),
                skip_field(line@, start as int) == skip_field(line@, i as int),
            decreases n - i,
        {
            i += 1;
        }
        let field: &'a str = line.substring_char(start, i);
        let ghost before: Seq<&str> = fields@;
        fields.push(field);
        proof {
            assert(texts(fields@) =~= texts(before).push(line@.subrange(start as int, i as int)));
            assert(fields_from(line@, from) == seq![line@.subrange(start as int, i as int)]
                + fields_from(line@, i as int));
            assert(texts(fields@) + fields_from(line@, i as int) =~= texts(before) + fields_from(
                line@,
                from,
            ));
        }
    }
    fields
}

/// What a line of a model file holds.
#[derive(Copy, Clone, PartialEq, Eq, Debug, Structural)]
pub enum LineKind {
    /// Nothing to read: an empty line, a comment, or a statement that
    /// models do not use.
    Skip,
    /// `v x y z`: a position.
    Vertex,
    /// `vt u v [w]`: a texture coordinate.
    TexCoord,
    /// `vn x y z`: a normal.
    Normal,
    /// `f a/b/c d/e/f g/h/i [j/k/l]`: a triangle or a quad.
    Face,
}

impl LineKind {
    /// Whether a line of this kind may carry `count` coordinates: three
    /// for a position or a normal, two or three for a texture coordinate.
    /// The other kinds carry none.
    pub open spec fn accepts(self, count: int) -> bool {
        match self {
            LineKind::Vertex => count == 3,
            LineKind::TexCoord => count == 2 || count == 3,
            LineKind::Normal => count == 3,
            LineKind::Face => false,
            LineKind::Skip => false,
        }
    }

    /// Checks the number of coordinates on an attribute line. A count the
    /// kind does not accept is a `SyntaxError`.
    pub fn check_coordinates(self, count: usize) -> (r: Result<(), ModelError>)
        ensures
            self.accepts(count as int) ==> r is Ok,
            !self.accepts(count as int) ==> r is Err && r->Err_0 is SyntaxError,
    {
        let accepted: bool = match self {
            LineKind::Vertex => count == 3,
            LineKind::TexCoord => count == 2 || count == 3,
            LineKind::Normal => count == 3,
            LineKind::Face => false,
            LineKind::Skip => false,
        };
        if accepted {
            Ok(())
        } else {
            Err(ModelError::SyntaxError)
        }
    }
}

/// The position behind the last character before `end` that is no space;
/// zero when only spaces precede `end`.
pub open spec fn skip_spaces_back(s: Seq<char>, end: int) -> int
    decreases end,
{
    if 0 < end <= s.len() && is_space(s[end - 1]) {
        skip_spaces_back(s, end - 1)
    } else {
        end
    }
}

/// The line without the spaces at its start and at its end.
pub open spec fn trimmed(s: Seq<char>) -> Seq<char> {
    let start = skip_spaces(s, 0);
    let end = skip_spaces_back(s, s.len() as int);
    if start < end {
        s.subrange(start, end)
    } else {
        Seq::empty()
    }
}

/// The trimmed line begins with the letters of a statement followed by
/// one blank.
pub open spec fn begins(t: Seq<char>, first: char, second: Option<char>) -> bool {
    match second {
        None => t.len() >= 2 && t[0] == first && t[1] == ' ',
        Some(c) => t.len() >= 3 && t[0] == first && t[1] == c && t[2] == ' ',
    }
}

/// The kind of a line, decided by how the trimmed line begins.
pub open spec fn line_kind(s: Seq<char>) -> LineKind {
    let t = trimmed(s);
    if t.len() == 0 || t[0] == '#' {
        LineKind::Skip
    } else if begins(t, 'v', None) {
        LineKind::Vertex
    } else if begins(t, 'v', Some('t')) {
        LineKind::TexCoord
    } else if begins(t, 'v', Some('n')) {
        LineKind::Normal
    } else if begins(t, 'f', None) {
        LineKind::Face
    } else {
        LineKind::Skip
    }
}

proof fn lemma_skip_back_bounds(s: Seq<char>, end: int)
    requires
        0 <= end <= s.len(),
    ensures
        0 <= skip_spaces_back(s, end) <= end,
    decreases end,
{
    if 0 < end && is_space(s[end - 1]) {
        lemma_skip_back_bounds(s, end - 1);
    }
}

/// Classifies a line of a model file.
pub fn classify_line(line: &str) -> (kind: LineKind)
    ensures
        kind == line_kind(line@),
{
    let n: usize = line.unicode_len();
    let mut start: usize = 0;
    while start < n && is_space_char(line.get_char(start))
        invariant
            start <= n,
            n == line@.len(),
            skip_spaces(line@, 0) == skip_spaces(line@, start as int),
        decreases n - start,
    {
        start += 1;
    }
    let mut end: usize = n;
    while end > start && is_space_char(line.get_char(end - 1))
        invariant
            start <= end <= n,
            n == line@.len(),
            start < n ==> !is_space(line@[start as int]) && start < end,
            skip_spaces_back(line@, n as int) == skip_spaces_back(line@, end as int),
        decreases end,
    {
        end -= 1;
    }
    proof {
        lemma_skip_back_bounds(line@, n as int);
    }
    let length: usize = end - start;
    assert(trimmed(line@).len() == length);
    assert(forall|k: int| 0 <= k < length ==> trimmed(line@)[k] == line@[start + k]);
    if length == 0 {
        return LineKind::Skip;
    }
    let first: char = line.get_char(start);
    if first == '#' {
        return LineKind::Skip;
    }
    if length < 2 {
        return LineKind::Skip;
    }
    let second: char = line.get_char(start + 1);
    if first == 'v' && second == ' ' {
        LineKind::Vertex
    } else if length >= 3 && first == 'v' && second == 't' && line.get_char(start + 2) == ' ' {
        LineKind::TexCoord
    } else if length >= 3 && first == 'v' && second == 'n' && line.get_char(start + 2) == ' ' {
        LineKind::Normal
    } else if first == 'f' && second == ' ' {
        LineKind::Face
    } else {
        LineKind::Skip
    }
}

/// The first position at or after `from` that holds a slash; the length
/// of `s` when none follows.
pub open spec fn find_slash(s: Seq<char>, from: int) -> int
    decreases s.len() - from,
{
    if 0 <= from < s.len() && s[from] != '/' {
        find_slash(s, from + 1)
    } else {
        from
    }
}

proof fn lemma_find_slash_bounds(s: Seq<char>, from: int)
    requires
        0 <= from <= s.len(),
    ensures
        from <= find_slash(s, from) <= s.len(),
    decreases s.len() - from,
{
    if from < s.len() && s[from] != '/' {
        lemma_find_slash_bounds(s, from + 1);
    }
}

/// The parts of `s` from `from` on that slashes separate. There is one
/// part more than there are slashes, and a part may be empty.
pub open spec fn parts_from(s: Seq<char>, from: int) -> Seq<Seq<char>>
    decreases s.len() - from,
    via parts_from_terminates
{
    if 0 <= from <= s.len() {
        let end = find_slash(s, from);
        if end >= s.len() {
            seq![s.subrange(from, s.len() as int)]
        } else {
            seq![s.subrange(from, end)] + parts_from(s, end + 1)
        }
    } else {
        Seq::empty()
    }
}

#[via_fn]
proof fn parts_from_terminates(s: Seq<char>, from: int) {
    if 0 <= from <= s.len() {
        lemma_find_slash_bounds(s, from);
    }
}

/// The character is one of the ten decimal digits.
pub open spec fn is_digit(c: char) -> bool {
    0x30 <= c as u32 <= 0x39
}

/// The number a string of decimal digits denotes.
pub open spec fn decimal_value(digits: Seq<char>) -> nat
    decreases digits.len(),
{
    if digits.len() == 0 {
        0
    } else {
        (decimal_value(digits.drop_last()) * 10 + (digits.last() as u32 - 0x30)) as nat
    }
}

/// The number an index field denotes: decimal digits, at least one, with
/// at most one plus sign in front, and a value that fits the machine word.
/// Any other field denotes nothing.
pub open spec fn index_literal(field: Seq<char>) -> Option<nat> {
    let digits = if field.len() > 0 && field[0] == '+' {
        field.drop_first()
    } else {
        field
    };
    if digits.len() > 0 && (forall|i: int| 0 <= i < digits.len() ==> is_digit(digits[i]))
        && decimal_value(digits) <= usize::MAX {
        Some(decimal_value(digits))
    } else {
        None
    }
}

/// Calls `str::parse::<usize>`. Its result is trusted to be the number
/// that [`index_literal`] gives for the field, and an error for every field
/// that denotes nothing.
#[verifier::external_body]
fn parse_index(field: &str) -> (r: Result<usize, ParseIntError>)
    ensures
        index_literal(field@) is Some ==> r is Ok && r->Ok_0 == index_literal(field@)->Some_0,
        index_literal(field@) is None ==> r is Err,
{
    field.parse::<usize>()
}

/// What is wrong with a face.
pub enum FaceFault {
    /// An index field denotes no number.
    BadNumber,
    /// A corner does not have three indices, the face does not have three
    /// or four corners, or an index is zero.
    BadShape,
}

/// A corner of a face: the places of its position, its texture coordinate
/// and its normal in their lists, counted from zero.
#[derive(Copy, Clone, PartialEq, Eq, Debug, Structural)]
pub struct FaceCorner {
    pub v: usize,
    pub vt: usize,
    pub vn: usize,
}

/// The three indices of a corner field `a/b/c`, as written. A part that
/// denotes no number is reported before a wrong number of parts.
pub open spec fn corner_of(field: Seq<char>) -> Result<(nat, nat, nat), FaceFault> {
    let parts = parts_from(field, 0);
    if exists|i: int| 0 <= i < parts.len() && index_literal(#[trigger] parts[i]) is None {
        Err(FaceFault::BadNumber)
    } else if parts.len() != 3 {
        Err(FaceFault::BadShape)
    } else {
        Ok(
            (
                index_literal(parts[0])->Some_0,
                index_literal(parts[1])->Some_0,
                index_literal(parts[2])->Some_0,
            ),
        )
    }
}

/// The corners of a list of corner fields, or what is wrong with the first
/// field that is not a corner.
pub open spec fn corners_of(fields: Seq<Seq<char>>) -> Result<Seq<(nat, nat, nat)>, FaceFault>
    decreases fields.len(),
{
    if fields.len() == 0 {
        Ok(Seq::empty())
    } else {
        match corners_of(fields.drop_last()) {
            Err(fault) => Err(fault),
            Ok(corners) => match corner_of(fields.last()) {
                Err(fault) => Err(fault),
                Ok(corner) => Ok(corners.push(corner)),
            },
        }
    }
}

/// A corner with its indices counted from zero instead of one.
pub open spec fn zero_based(corner: (nat, nat, nat)) -> FaceCorner {
    FaceCorner {
        v: (corner.0 - 1) as usize,
        vt: (corner.1 - 1) as usize,
        vn: (corner.2 - 1) as usize,
    }
}

/// Every index of the corner is at least one.
pub open spec fn is_one_based(corner: (nat, nat, nat)) -> bool {
    corner.0 >= 1 && corner.1 >= 1 && corner.2 >= 1
}

/// The triangles of a face with the given corners. Three corners are one
/// triangle. Four corners `a b c d` are the two triangles `a b c` and
/// `c b d`. Indices are counted from one in the file and from zero in the
/// result.
pub open spec fn triangles_of(corners: Seq<(nat, nat, nat)>) -> Result<Seq<FaceCorner>, FaceFault> {
    if (corners.len() != 3 && corners.len() != 4) || exists|i: int|
        0 <= i < corners.len() && !is_one_based(#[trigger] corners[i]) {
        Err(FaceFault::BadShape)
    } else if corners.len() == 3 {
        Ok(seq![zero_based(corners[0]), zero_based(corners[1]), zero_based(corners[2])])
    } else {
        Ok(
            seq![
                zero_based(corners[0]),
                zero_based(corners[1]),
                zero_based(corners[2]),
                zero_based(corners[2]),
                zero_based(corners[1]),
                zero_based(corners[3]),
            ],
        )
    }
}

/// The fields of a line after its first field.
pub open spec fn arguments_of(line: Seq<char>) -> Seq<Seq<char>> {
    if fields_of(line).len() >= 1 {
        fields_of(line).skip(1)
    } else {
        Seq::empty()
    }
}

/// The triangles a face line describes: the fields after the first are
/// its corners.
pub open spec fn face_of(line: Seq<char>) -> Result<Seq<FaceCorner>, FaceFault> {
    match corners_of(arguments_of(line)) {
        Err(fault) => Err(fault),
        Ok(corners) => triangles_of(corners),
    }
}

/// A face yields whole triangles: three corners, or six for a quad, and
/// every corner of a quad's second triangle is a corner of the quad.
pub proof fn lemma_faces_are_whole_triangles(line: Seq<char>)
    requires
        face_of(line) is Ok,
    ensures
        ({
            let corners = face_of(line)->Ok_0;
            &&& corners.len() == 3 || corners.len() == 6
            &&& corners.len() == 6 ==> corners[3] == corners[2] && corners[4] == corners[1]
        }),
{
}

/// An outcome of reading agrees with what the grammar says: the same
/// value, or the error that belongs to the fault.
pub open spec fn agrees<T, U>(
    r: Result<T, ModelError>,
    expected: Result<U, FaceFault>,
    same: spec_fn(T, U) -> bool,
) -> bool {
    match expected {
        Ok(value) => r is Ok && same(r->Ok_0, value),
        Err(FaceFault::BadNumber) => r is Err && r->Err_0 is ParseIntError,
        Err(FaceFault::BadShape) => r is Err && r->Err_0 is SyntaxError,
    }
}

/// Reads one corner field `a/b/c`, indices as written.
fn parse_corner(field: &str) -> (r: Result<(usize, usize, usize), ModelError>)
    ensures
        agrees(
            r,
            corner_of(field@),
            |got: (usize, usize, usize), want: (nat, nat, nat)|
                got.0 == want.0 && got.1 == want.1 && got.2 == want.2,
        ),
{
    let n: usize = field.unicode_len();
    let mut numbers: Vec<usize> = Vec::new();
    let mut from: usize = 0;
    let ghost all: Seq<Seq<char>> = parts_from(field@, 0);
    let ghost mut done: Seq<Seq<char>> = Seq::empty();
    assert(done + all =~= all);
    loop
        invariant_except_break
            done + parts_from(field@, from as int) == all,
        invariant
            from <= n,
            n == field@.len(),
            all == parts_from(field@, 0),
            numbers.len() == done.len(),
            forall|j: int|
                0 <= j < done.len() ==> index_literal(#[trigger] done[j]) == Some(
                    numbers[j] as nat,
                ),
        ensures
            done == all,
        decreases n - from,
    {
        let mut end: usize = from;
        while end < n && field.get_char(end) != '/'
            invariant
                from <= end <= n,
                n == field@.len(),
                find_slash(field@, from as int) == find_slash(field@, end as int),
            decreases n - end,
        {
            end += 1;
        }
        let part: &str = field.substring_char(from, end);
        let ghost rest: Seq<Seq<char>> = if end < n {
            parts_from(field@, end + 1)
        } else {
            Seq::empty()
        };
        proof {
            assert(parts_from(field@, from as int) =~= seq![part@] + rest);
            assert(done + (seq![part@] + rest) =~= done.push(part@) + rest);
            assert(all[done.len() as int] == part@);
        }
        match parse_index(part) {
            Ok(number) => {
                numbers.push(number);
                proof {
                    done = done.push(part@);
                }
            },
            Err(error) => {
                return Err(ModelError::from(error));
            },
        }
        if end >= n {
            proof {
                assert(done + Seq::<Seq<char>>::empty() =~= done);
            }
            break ;
        }
        from = end + 1;
    }
    if numbers.len() != 3 {
        return Err(ModelError::SyntaxError);
    }
    Ok((numbers[0], numbers[1], numbers[2]))
}

/// Brings an index as written, counted from one, to the place it names.
fn place(index: usize) -> (r: usize)
    requires
        index >= 1,
    ensures
        r == index - 1,
{
    index - 1
}

/// Reads a face line. The fields after the first are the corners; each
/// is three indices separated by slashes. A part that is no number gives
/// a `ParseIntError`. A corner without exactly three indices, a face
/// without three or four corners, and an index of zero give a
/// `SyntaxError`. Of several faults the first in reading order is
/// reported; the number of corners and their indices are looked at last.
pub fn parse_face(line: &str) -> (r: Result<Vec<FaceCorner>, ModelError>)
    ensures
        agrees(r, face_of(line@), |got: Vec<FaceCorner>, want: Seq<FaceCorner>| got@ == want),
{
    let fields: Vec<&str> = split_fields(line);
    let mut corners: Vec<(usize, usize, usize)> = Vec::new();
    let ghost wanted: Seq<Seq<char>> = arguments_of(line@);
    let ghost mut read: Seq<(nat, nat, nat)> = Seq::empty();
    let mut k: usize = 1;
    assert(wanted.take(0) =~= Seq::<Seq<char>>::empty());
    assert(texts(fields@).len() == fields.len());
    while k < fields.len()
        invariant
            1 <= k,
            texts(fields@) == fields_of(line@),
            wanted == arguments_of(line@),
            fields.len() >= 1 ==> k <= fields.len(),
            k - 1 <= wanted.len(),
            corners_of(wanted.take(k - 1)) == Ok::<Seq<(nat, nat, nat)>, FaceFault>(read),
            corners.len() == read.len(),
            forall|j: int|
                0 <= j < read.len() ==> (#[trigger] corners[j]).0 == read[j].0 && corners[j].1
                    == read[j].1 && corners[j].2 == read[j].2,
        decreases fields.len() - k,
    {
        let ghost prefix: Seq<Seq<char>> = wanted.take(k as int);
        proof {
            assert(prefix.drop_last() =~= wanted.take(k - 1));
            assert(prefix.last() == fields@[k as int]@);
        }
        match parse_corner(fields[k]) {
            Ok(corner) => {
                corners.push(corner);
                proof {
                    read = read.push((corner.0 as nat, corner.1 as nat, corner.2 as nat));
                }
            },
            Err(error) => {
                proof {
                    lemma_fault_persists(wanted, k as int);
                }
                return Err(error);
            },
        }
        k += 1;
    }
    proof {
        assert(wanted.take(k - 1) =~= wanted);
    }
    let count: usize = corners.len();
    if count != 3 && count != 4 {
        return Err(ModelError::SyntaxError);
    }
    let mut j: usize = 0;
    while j < count
        invariant
            j <= count,
            count == corners.len(),
            count == 3 || count == 4,
            face_of(line@) == triangles_of(read),
            forall|i: int| 0 <= i < j ==> is_one_based(#[trigger] read[i]),
            corners.len() == read.len(),
            forall|i: int|
                0 <= i < read.len() ==> (#[trigger] corners[i]).0 == read[i].0 && corners[i].1
                    == read[i].1 && corners[i].2 == read[i].2,
        decreases count - j,
    {
        let corner: (usize, usize, usize) = corners[j];
        if corner.0 == 0 || corner.1 == 0 || corner.2 == 0 {
            assert(!is_one_based(read[j as int]));
            return Err(ModelError::SyntaxError);
        }
        j += 1;
    }
    let mut out: Vec<FaceCorner> = Vec::new();
    let order: [usize; 6] = [0, 1, 2, 2, 1, 3];
    let wanted_corners: usize = if count == 3 {
        3
    } else {
        6
    };
    let mut m: usize = 0;
    while m < wanted_corners
        invariant
            m <= wanted_corners <= 6,
            count == corners.len(),
            count == 3 || count == 4,
            wanted_corners == (if count == 3 {
                3usize
            } else {
                6usize
            }),
            order@ == seq![0usize, 1, 2, 2, 1, 3],
            corners.len() == read.len(),
            forall|i: int| 0 <= i < count ==> is_one_based(#[trigger] read[i]),
            forall|i: int|
                0 <= i < read.len() ==> (#[trigger] corners[i]).0 == read[i].0 && corners[i].1
                    == read[i].1 && corners[i].2 == read[i].2,
            out.len() == m,
            forall|i: int| 0 <= i < m ==> out[i] == zero_based(read[order[i] as int]),
        decreases wanted_corners - m,
    {
        let corner: (usize, usize, usize) = corners[order[m]];
        assert(is_one_based(read[order[m as int] as int]));
        out.push(FaceCorner { v: place(corner.0), vt: place(corner.1), vn: place(corner.2) });
        m += 1;
    }
    assert(out@ =~= triangles_of(read)->Ok_0);
    Ok(out)
}

/// When a prefix of the corner fields has a fault, the whole list has
/// that fault.
proof fn lemma_fault_persists(fields: Seq<Seq<char>>, k: int)
    requires
        0 <= k <= fields.len(),
        corners_of(fields.take(k)) is Err,
    ensures
        corners_of(fields) == corners_of(fields.take(k)),
    decreases fields.len() - k,
{
    if k < fields.len() {
        assert(fields.take(k + 1).drop_last() =~= fields.take(k));
        lemma_fault_persists(fields, k + 1);
    } else {
        assert(fields.take(k) =~= fields);
    }
}

/// The items that a list of places names, in the order of the places.
pub open spec fn gathered<T>(items: Seq<T>, places: Seq<usize>) -> Seq<T> {
    Seq::new(places.len(), |i: int| items[places[i] as int])
}

/// Every place names an item.
pub open spec fn all_in_range(places: Seq<usize>, count: nat) -> bool {
    forall|i: int| 0 <= i < places.len() ==> (#[trigger] places[i]) < count
}

/// Resolves corner indices against an attribute list: the result holds
/// one item per place, three in a row for every triangle. A place beyond
/// the end of the list gives a `SyntaxError`.
pub fn gather<T: Copy>(items: &Vec<T>, places: &Vec<usize>) -> (r: Result<Vec<T>, ModelError>)
    ensures
        all_in_range(places@, items@.len()) ==> r is Ok && r->Ok_0@ == gathered(
            items@,
            places@,
        ),
        !all_in_range(places@, items@.len()) ==> r is Err && r->Err_0 is SyntaxError,
{
    let mut out: Vec<T> = Vec::new();
    let mut i: usize = 0;
    while i < places.len()
        invariant
            i <= places.len(),
            out.len() == i,
            forall|j: int| 0 <= j < i ==> (#[trigger] places[j]) < items.len(),
            forall|j: int| 0 <= j < i ==> out[j] == items[places[j] as int],
        decreases places.len() - i,
    {
        let place: usize = places[i];
        if place >= items.len() {
            return Err(ModelError::SyntaxError);
        }
        out.push(items[place]);
        i += 1;
    }
    assert(out@ =~= gathered(items@, places@));
    Ok(out)
}

} // verus!
