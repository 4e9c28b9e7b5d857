use vstd::prelude::*;

use crate::error::AppError;
use crate::tokens::{
    all_digits, digits_to_usize, digits_value, find_char, is_all_digits, is_digit, split_commas,
    split_on,
};

verus! {

pub const CONFLICTING_SUBSETS_MESSAGE: &'static str = "Cannot use numbered fields and named fields together";

pub const ZERO_INDEX_MESSAGE: &'static str = "Fields are 1-indexed.  Cannot provide a 0.";

pub const NUMBER_TOO_LARGE_MESSAGE: &'static str = "number too large to fit in target type";

pub const RANGE_TOO_HIGH_MESSAGE: &'static str = "Range is too high";

pub const MISSING_COLUMNS_PREFIX: &'static str = "Missing columns in named fields: ";

/// Largest span `end - start` of a range of column numbers.
pub const MAX_RANGE_SPAN: usize = 10000;

/// A requested column subset.
pub enum FieldKind {
    All,
    /// 0-based positions, in the order given, repeats allowed.
    Numbered(Vec<usize>),
    /// Header names, in the order given.
    Named(Vec<String>),
}

/// What a `FieldKind` holds, as mathematical values.
pub enum KindModel {
    All,
    Numbered(Seq<usize>),
    Named(Seq<Seq<char>>),
}

impl View for FieldKind {
    type V = KindModel;

    open spec fn view(&self) -> KindModel {
        match self {
            FieldKind::All => KindModel::All,
            FieldKind::Numbered(v) => KindModel::Numbered(v@),
            FieldKind::Named(v) => KindModel::Named(v.deep_view()),
        }
    }
}

/// The column projection chosen by the user.
pub struct FieldsSubset {
    pub field_kind: FieldKind,
}

impl View for FieldsSubset {
    type V = KindModel;

    open spec fn view(&self) -> KindModel {
        self.field_kind@
    }
}

/// `start, start + 1, ..., start + len - 1`.
pub open spec fn index_run(start: int, len: nat) -> Seq<usize> {
    Seq::new(len, |i: int| (start + i) as usize)
}

/// A token `a-b` of two digit runs, with the dash at `k`.
pub open spec fn is_range_at(t: Seq<char>, k: int) -> bool {
    0 <= k < t.len() && t[k] == '-' && all_digits(t.take(k)) && all_digits(t.skip(k + 1))
}

pub open spec fn invalid_range_message(t: Seq<char>) -> Seq<char> {
    "Invalid range "@ + t + ", start must be less than end"@
}

/// The 0-based positions that one token of a numbered subset asks for, or
/// the error that it raises. A token that is neither a number nor a range is
/// skipped.
pub open spec fn token_indexes(t: Seq<char>) -> Result<Seq<usize>, Seq<char>> {
    if all_digits(t) {
        let n = digits_value(t);
        if n > usize::MAX {
            Err(NUMBER_TOO_LARGE_MESSAGE@)
        } else if n == 0 {
            Err(ZERO_INDEX_MESSAGE@)
        } else {
            Ok(seq![(n - 1) as usize])
        }
    } else if exists|k: int| is_range_at(t, k) {
        let k = choose|k: int| is_range_at(t, k);
        let a = digits_value(t.take(k));
        let b = digits_value(t.skip(k + 1));
        if a > usize::MAX || b > usize::MAX {
            Err(NUMBER_TOO_LARGE_MESSAGE@)
        } else if a == 0 || b == 0 {
            Err(ZERO_INDEX_MESSAGE@)
        } else if a >= b {
            Err(invalid_range_message(t))
        } else if b - a > MAX_RANGE_SPAN {
            Err(RANGE_TOO_HIGH_MESSAGE@)
        } else {
            Ok(index_run(a - 1, (b - a + 1) as nat))
        }
    } else {
        Ok(Seq::empty())
    }
}

/// The positions that a list of tokens asks for, in order, or the error of
/// the first token that fails.
pub open spec fn numbered_indexes(tokens: Seq<Seq<char>>) -> Result<Seq<usize>, Seq<char>>
    decreases tokens.len(),
{
    if tokens.len() == 0 {
        Ok(Seq::empty())
    } else {
        match numbered_indexes(tokens.drop_last()) {
            Err(e) => Err(e),
            Ok(prev) => match token_indexes(tokens.last()) {
                Err(e) => Err(e),
                Ok(v) => Ok(prev + v),
            },
        }
    }
}

/// The subset that the two user options select.
pub open spec fn subset_of(numbered: Option<Seq<char>>, named: Option<Seq<char>>) -> Result<
    KindModel,
    Seq<char>,
> {
    match (numbered, named) {
        (Some(_), Some(_)) => Err(CONFLICTING_SUBSETS_MESSAGE@),
        (Some(n), None) => match numbered_indexes(split_on(n, ',')) {
            Ok(v) => Ok(KindModel::Numbered(v)),
            Err(e) => Err(e),
        },
        (None, Some(n)) => Ok(KindModel::Named(split_on(n, ','))),
        (None, None) => Ok(KindModel::All),
    }
}

pub open spec fn opt_view(o: Option<String>) -> Option<Seq<char>> {
    match o {
        Some(s) => Some(s@),
        None => None,
    }
}

proof fn lemma_range_at_unique(t: Seq<char>, k1: int, k2: int)
    requires
        is_range_at(t, k1),
        is_range_at(t, k2),
    ensures
        k1 == k2,
{
    if k1 < k2 {
        assert(is_digit(t.take(k2)[k1]));
    } else if k2 < k1 {
        assert(is_digit(t.take(k1)[k2]));
    }
}

fn error_of(msg: &str) -> (r: Result<(), AppError>)
    ensures
        r is Err && r->Err_0@ == msg@,
{
    Err(AppError::new(msg))
}

/// Appends to `fields` the positions that one token asks for.
fn push_token_indexes(t: &str, fields: &mut Vec<usize>) -> (r: Result<(), AppError>)
    ensures
        match token_indexes(t@) {
            Ok(v) => r is Ok && final(fields)@ == old(fields)@ + v,
            Err(e) => r is Err && r->Err_0@ == e,
        },
{
    if is_all_digits(t) {
        let n = match digits_to_usize(t) {
            Some(n) => n,
            None => return error_of(NUMBER_TOO_LARGE_MESSAGE),
        };
        if n < 1 {
            return error_of(ZERO_INDEX_MESSAGE);
        }
        fields.push(n - 1);
        return Ok(());
    }
    let len = t.unicode_len();
    let k = match find_char(t, '-') {
        Some(k) => k,
        None => {
            assert(forall|k: int| !is_range_at(t@, k));
            return Ok(());
        },
    };
    let left = t.substring_char(0, k);
    let right = t.substring_char(k + 1, len);
    assert(left@ =~= t@.take(k as int));
    assert(right@ =~= t@.skip(k + 1));
    if !(is_all_digits(left) && is_all_digits(right)) {
        assert forall|k2: int| !is_range_at(t@, k2) by {
            if is_range_at(t@, k2) {
                if k2 < k {
                } else if k2 > k {
                    assert(is_digit(t@.take(k2)[k as int]));
                }
            }
        }
        return Ok(());
    }
    assert(is_range_at(t@, k as int));
    proof {
        let kc = choose|kc: int| is_range_at(t@, kc);
        lemma_range_at_unique(t@, kc, k as int);
    }
    let start = match digits_to_usize(left) {
        Some(v) => v,
        None => return error_of(NUMBER_TOO_LARGE_MESSAGE),
    };
    let end = match digits_to_usize(right) {
        Some(v) => v,
        None => return error_of(NUMBER_TOO_LARGE_MESSAGE),
    };
    if start < 1 || end < 1 {
        return error_of(ZERO_INDEX_MESSAGE);
    }
    let start = start - 1;
    let end = end - 1;
    if start >= end {
        let mut msg = String::from_str("Invalid range ");
        msg.append(t);
        msg.append(", start must be less than end");
        return Err(AppError { message: msg });
    }
    if end - start > MAX_RANGE_SPAN {
        return error_of(RANGE_TOO_HIGH_MESSAGE);
    }
    let ghost before = fields@;
    let mut i: usize = start;
    while i <= end
        invariant
            start <= i <= end + 1,
            end < usize::MAX,
            fields@ == before + index_run(start as int, (i - start) as nat),
        decreases end + 1 - i,
    {
        fields.push(i);
        i = i + 1;
        assert(fields@ =~= before + index_run(start as int, (i - start) as nat));
    }
    Ok(())
}

impl FieldsSubset {
    /// Reads the two user options: a numbered subset, a named subset, or
    /// neither. Both together are refused.
    pub fn new(numbered_fields_raw: &Option<String>, named_fields_raw: &Option<String>) -> (r:
        Result<Self, AppError>)
        ensures
            match subset_of(opt_view(*numbered_fields_raw), opt_view(*named_fields_raw)) {
                Ok(k) => r is Ok && r->Ok_0@ == k,
                Err(e) => r is Err && r->Err_0@ == e,
            },
    {
        let field_kind = match (numbered_fields_raw, named_fields_raw) {
            (Some(_), Some(_)) => {
                return Err(AppError::new(CONFLICTING_SUBSETS_MESSAGE));
            },
            (Some(n), None) => Self::parse_numbered_fields(n.as_str()),
            (None, Some(n)) => Self::parse_named_fields(n.as_str()),
            (None, None) => Ok(FieldKind::All),
        };
        match field_kind {
            Ok(field_kind) => Ok(Self { field_kind }),
            Err(e) => Err(e),
        }
    }

    /// Parses `raw` as comma-separated 1-based numbers and ranges `a-b`.
    pub fn parse_numbered_fields(raw: &str) -> (r: Result<FieldKind, AppError>)
        ensures
            match numbered_indexes(split_on(raw@, ',')) {
                Ok(v) => r is Ok && r->Ok_0@ == KindModel::Numbered(v),
                Err(e) => r is Err && r->Err_0@ == e,
            },
    {
        let tokens = split_commas(raw);
        let mut fields: Vec<usize> = Vec::new();
        let mut i: usize = 0;
        assert(tokens.deep_view().take(0) =~= Seq::<Seq<char>>::empty());
        while i < tokens.len()
            invariant
                i <= tokens.len(),
                tokens.deep_view() == split_on(raw@, ','),
                numbered_indexes(tokens.deep_view().take(i as int)) == Ok::<Seq<usize>, Seq<char>>(
                    fields@,
                ),
            decreases tokens.len() - i,
        {
            assert(tokens.deep_view().take(i + 1).drop_last() =~= tokens.deep_view().take(
                i as int,
            ));
            assert(tokens.deep_view()[i as int] == tokens[i as int]@);
            match push_token_indexes(tokens[i].as_str(), &mut fields) {
                Ok(()) => {},
                Err(e) => {
                    proof {
                        lemma_numbered_error_stays(tokens.deep_view(), i as int + 1);
                    }
                    return Err(e);
                },
            }
            i = i + 1;
        }
        assert(tokens.deep_view().take(i as int) =~= tokens.deep_view());
        Ok(FieldKind::Numbered(fields))
    }

    /// Parses `raw` as comma-separated header names.
    pub fn parse_named_fields(raw: &str) -> (r: Result<FieldKind, AppError>)
        ensures
            r is Ok && r->Ok_0@ == KindModel::Named(split_on(raw@, ',')),
    {
        Ok(FieldKind::Named(split_commas(raw)))
    }

    pub fn is_none(&self) -> (r: bool)
        ensures
            r == (self@ is All),
    {
        self.field_kind.is_none()
    }
}

/// An error of some token stays the result when more tokens follow.
proof fn lemma_numbered_error_stays(tokens: Seq<Seq<char>>, i: int)
    requires
        0 < i <= tokens.len(),
        numbered_indexes(tokens.take(i)) is Err,
    ensures
        numbered_indexes(tokens) == numbered_indexes(tokens.take(i)),
    decreases tokens.len() - i,
{
    if i < tokens.len() {
        assert(tokens.take(i + 1).drop_last() =~= tokens.take(i));
        lemma_numbered_error_stays(tokens, i + 1);
    } else {
        assert(tokens.take(i) =~= tokens);
    }
}

impl FieldKind {
    pub fn get_named_vec(&self) -> (r: Option<&Vec<String>>)
        ensures
            match self {
                FieldKind::Named(v) => r == Some(v),
                _ => r is None,
            },
    {
        match self {
            FieldKind::Named(v) => Some(v),
            _ => None,
        }
    }

    pub fn is_numbered_vec(&self) -> (r: bool)
        ensures
            r == (self is Numbered),
    {
        match self {
            FieldKind::Numbered(_) => true,
            _ => false,
        }
    }

    pub fn is_none(&self) -> (r: bool)
        ensures
            r == (self is All),
    {
        match self {
            FieldKind::All => true,
            _ => false,
        }
    }
}


/// Resolution of a projection as rows are scanned.
pub struct FileData {
    /// Resolved 0-based positions, in output order.
    pub indexes: Vec<usize>,
    /// Largest 0-based position seen in a scanned row.
    pub max_index_seen: usize,
    /// Largest position that the projection needs.
    pub max_index_required: usize,
    /// Set once resolution is over; nothing changes after that.
    pub complete: bool,
}

pub struct FileState {
    pub indexes: Seq<usize>,
    pub max_index_seen: usize,
    pub max_index_required: usize,
    pub complete: bool,
}

impl View for FileData {
    type V = FileState;

    open spec fn view(&self) -> FileState {
        FileState {
            indexes: self.indexes@,
            max_index_seen: self.max_index_seen,
            max_index_required: self.max_index_required,
            complete: self.complete,
        }
    }
}

/// Largest element, or 0 for none.
pub open spec fn seq_max(s: Seq<usize>) -> usize
    decreases s.len(),
{
    if s.len() == 0 {
        0
    } else {
        let m = seq_max(s.drop_last());
        if s.last() > m {
            s.last()
        } else {
            m
        }
    }
}

/// The state in which resolution starts.
pub open spec fn initial_state(kind: KindModel) -> FileState {
    match kind {
        KindModel::Numbered(v) => FileState {
            indexes: v,
            max_index_seen: 0,
            max_index_required: seq_max(v),
            complete: false,
        },
        KindModel::Named(_) => FileState {
            indexes: Seq::empty(),
            max_index_seen: 0,
            max_index_required: 0,
            complete: false,
        },
        KindModel::All => FileState {
            indexes: Seq::empty(),
            max_index_seen: 0,
            max_index_required: 0,
            complete: true,
        },
    }
}

/// Position of the first field equal to `name`, or -1.
pub open spec fn first_index_of(row: Seq<Seq<char>>, name: Seq<char>) -> int
    decreases row.len(),
{
    if row.len() == 0 {
        -1
    } else {
        let r = first_index_of(row.drop_last(), name);
        if r >= 0 {
            r
        } else if row.last() == name {
            row.len() - 1
        } else {
            -1
        }
    }
}

/// Positions in `header` of the requested names that it holds, in request order.
pub open spec fn resolved_names(names: Seq<Seq<char>>, header: Seq<Seq<char>>) -> Seq<usize>
    decreases names.len(),
{
    if names.len() == 0 {
        Seq::empty()
    } else {
        let p = resolved_names(names.drop_last(), header);
        let k = first_index_of(header, names.last());
        if k >= 0 {
            p.push(k as usize)
        } else {
            p
        }
    }
}

/// The requested names that `header` does not hold, in request order.
pub open spec fn missing_names(names: Seq<Seq<char>>, header: Seq<Seq<char>>) -> Seq<Seq<char>>
    decreases names.len(),
{
    if names.len() == 0 {
        Seq::empty()
    } else {
        let p = missing_names(names.drop_last(), header);
        if first_index_of(header, names.last()) >= 0 {
            p
        } else {
            p.push(names.last())
        }
    }
}

/// The pieces joined with `sep` between each two.
pub open spec fn join(s: Seq<Seq<char>>, sep: Seq<char>) -> Seq<char>
    decreases s.len(),
{
    if s.len() == 0 {
        Seq::empty()
    } else if s.len() == 1 {
        s[0]
    } else {
        join(s.drop_last(), sep) + sep + s.last()
    }
}

pub open spec fn missing_columns_message(missing: Seq<Seq<char>>) -> Seq<char> {
    MISSING_COLUMNS_PREFIX@ + join(missing, ", "@)
}

/// Largest 0-based position of a row of `len` fields, joined with `seen`.
pub open spec fn seen_after(seen: usize, len: nat) -> usize {
    if len > 0 && len - 1 > seen {
        (len - 1) as usize
    } else {
        seen
    }
}

/// What scanning one row does to the resolution state.
pub open spec fn observe(kind: KindModel, fd: FileState, row: Seq<Seq<char>>, is_first_row: bool) -> Result<
    FileState,
    Seq<char>,
> {
    if fd.complete {
        Ok(fd)
    } else {
        match kind {
            KindModel::Named(names) => {
                if is_first_row {
                    let missing = missing_names(names, row);
                    let idx = fd.indexes + resolved_names(names, row);
                    if missing.len() > 0 {
                        Err(missing_columns_message(missing))
                    } else {
                        Ok(
                            FileState {
                                indexes: idx,
                                max_index_seen: seen_after(fd.max_index_seen, row.len()),
                                max_index_required: seq_max(idx),
                                complete: true,
                            },
                        )
                    }
                } else {
                    Ok(fd)
                }
            },
            KindModel::Numbered(_) => {
                if row.len() == 0 {
                    Ok(fd)
                } else {
                    let seen = seen_after(fd.max_index_seen, row.len());
                    Ok(
                        FileState {
                            indexes: fd.indexes,
                            max_index_seen: seen,
                            max_index_required: fd.max_index_required,
                            complete: seen >= fd.max_index_required,
                        },
                    )
                }
            },
            KindModel::All => Ok(fd),
        }
    }
}

/// The resolved positions picked out of `row`; a position past the row's
/// end gives `missing`, one past `max_seen` gives nothing.
pub open spec fn project<T>(indexes: Seq<usize>, max_seen: usize, row: Seq<T>, missing: T) -> Seq<T>
    decreases indexes.len(),
{
    if indexes.len() == 0 {
        Seq::empty()
    } else {
        let p = project(indexes.drop_last(), max_seen, row, missing);
        let i = indexes.last();
        if i > max_seen {
            p
        } else {
            p.push(if i < row.len() { row[i as int] } else { missing })
        }
    }
}

/// A row as the projection rewrites it.
pub open spec fn project_row(kind: KindModel, fd: FileState, row: Seq<Seq<char>>) -> Seq<Seq<char>> {
    if kind is All {
        row
    } else {
        project(fd.indexes, fd.max_index_seen, row, Seq::empty())
    }
}

/// A width vector as the projection rewrites it.
pub open spec fn project_widths(kind: KindModel, fd: FileState, widths: Seq<usize>) -> Seq<usize> {
    if kind is All {
        widths
    } else {
        project(fd.indexes, fd.max_index_seen, widths, 0usize)
    }
}

/// Largest element of `v`, or 0.
fn max_of(v: &Vec<usize>) -> (r: usize)
    ensures
        r == seq_max(v@),
{
    let mut m: usize = 0;
    let mut i: usize = 0;
    assert(v@.take(0) =~= Seq::<usize>::empty());
    while i < v.len()
        invariant
            i <= v.len(),
            m == seq_max(v@.take(i as int)),
        decreases v.len() - i,
    {
        assert(v@.take(i + 1).drop_last() =~= v@.take(i as int));
        if v[i] > m {
            m = v[i];
        }
        i = i + 1;
    }
    assert(v@.take(i as int) =~= v@);
    m
}

/// Position of the first field equal to `name`.
fn first_index(row: &Vec<String>, name: &String) -> (r: Option<usize>)
    ensures
        match r {
            Some(k) => first_index_of(row.deep_view(), name@) == k as int,
            None => first_index_of(row.deep_view(), name@) < 0,
        },
{
    let mut found: Option<usize> = None;
    let mut i: usize = 0;
    assert(row.deep_view().take(0) =~= Seq::<Seq<char>>::empty());
    while i < row.len()
        invariant
            i <= row.len(),
            match found {
                Some(k) => first_index_of(row.deep_view().take(i as int), name@) == k as int,
                None => first_index_of(row.deep_view().take(i as int), name@) < 0,
            },
        decreases row.len() - i,
    {
        assert(row.deep_view().take(i + 1).drop_last() =~= row.deep_view().take(i as int));
        assert(row.deep_view()[i as int] == row[i as int]@);
        if found.is_none() && row[i] == *name {
            found = Some(i);
        }
        i = i + 1;
    }
    assert(row.deep_view().take(i as int) =~= row.deep_view());
    found
}

/// The message that lists every missing name.
fn missing_message(missing: &Vec<String>) -> (r: String)
    ensures
        r@ == missing_columns_message(missing.deep_view()),
{
    let mut msg = String::from_str(MISSING_COLUMNS_PREFIX);
    let mut i: usize = 0;
    assert(missing.deep_view().take(0) =~= Seq::<Seq<char>>::empty());
    while i < missing.len()
        invariant
            i <= missing.len(),
            msg@ == MISSING_COLUMNS_PREFIX@ + join(missing.deep_view().take(i as int), ", "@),
        decreases missing.len() - i,
    {
        assert(missing.deep_view().take(i + 1).drop_last() =~= missing.deep_view().take(i as int));
        assert(missing.deep_view()[i as int] == missing[i as int]@);
        if i > 0 {
            msg.append(", ");
        }
        msg.append(missing[i].as_str());
        i = i + 1;
        assert(msg@ =~= MISSING_COLUMNS_PREFIX@ + join(missing.deep_view().take(i as int), ", "@));
    }
    assert(missing.deep_view().take(i as int) =~= missing.deep_view());
    msg
}

impl FieldsSubset {
    /// The state in which resolution starts.
    pub fn generate_file_data(&self) -> (r: FileData)
        ensures
            r@ == initial_state(self@),
    {
        match &self.field_kind {
            FieldKind::Named(_) => FileData {
                indexes: Vec::new(),
                max_index_seen: 0,
                max_index_required: 0,
                complete: false,
            },
            FieldKind::Numbered(v) => FileData {
                indexes: v.clone(),
                max_index_seen: 0,
                max_index_required: max_of(v),
                complete: false,
            },
            FieldKind::All => FileData {
                indexes: Vec::new(),
                max_index_seen: 0,
                max_index_required: 0,
                complete: true,
            },
        }
    }

    /// Moves resolution on by one scanned row. Named columns are matched
    /// against the first row, the first field of each name winning, and
    /// that row's positions count as seen; every missing name is reported
    /// in one error. A numbered subset is complete once a row reaches its
    /// largest position. Once complete, nothing changes. On an error
    /// `file_data` is unchanged.
    pub fn set_from_row(&self, file_data: &mut FileData, row: &Vec<String>, is_first_row: bool) -> (r:
        Result<(), AppError>)
        ensures
            match observe(self@, old(file_data)@, row.deep_view(), is_first_row) {
                Ok(s) => r is Ok && final(file_data)@ == s,
                Err(e) => r is Err && r->Err_0@ == e && final(file_data)@ == old(file_data)@,
            },
    {
        if file_data.complete {
            return Ok(());
        }
        match &self.field_kind {
            FieldKind::Named(names) => {
                if !is_first_row {
                    return Ok(());
                }
                let mut resolved: Vec<usize> = file_data.indexes.clone();
                let mut missing: Vec<String> = Vec::new();
                let ghost header = row.deep_view();
                let mut j: usize = 0;
                assert(names.deep_view().take(0) =~= Seq::<Seq<char>>::empty());
                assert(resolved@ =~= file_data.indexes@ + resolved_names(Seq::empty(), header));
                while j < names.len()
                    invariant
                        j <= names.len(),
                        header == row.deep_view(),
                        resolved@ == file_data.indexes@ + resolved_names(
                            names.deep_view().take(j as int),
                            header,
                        ),
                        missing.deep_view() == missing_names(names.deep_view().take(j as int), header),
                    decreases names.len() - j,
                {
                    let ghost nv = names.deep_view();
                    assert(nv.take(j + 1).drop_last() =~= nv.take(j as int));
                    assert(nv[j as int] == names[j as int]@);
                    let ghost m0 = missing.deep_view();
                    match first_index(row, &names[j]) {
                        Some(k) => {
                            resolved.push(k);
                        },
                        None => {
                            missing.push(names[j].clone());
                            assert(missing.deep_view() =~= m0.push(names[j as int]@));
                        },
                    }
                    j = j + 1;
                    assert(resolved@ =~= file_data.indexes@ + resolved_names(nv.take(j as int), header));
                }
                assert(names.deep_view().take(j as int) =~= names.deep_view());
                if missing.len() > 0 {
                    return Err(AppError { message: missing_message(&missing) });
                }
                let required = max_of(&resolved);
                file_data.indexes = resolved;
                file_data.complete = true;
                file_data.max_index_required = required;
                if row.len() > 0 && row.len() - 1 > file_data.max_index_seen {
                    file_data.max_index_seen = row.len() - 1;
                }
                Ok(())
            },
            FieldKind::Numbered(_) => {
                if row.len() > 0 {
                    if row.len() - 1 > file_data.max_index_seen {
                        file_data.max_index_seen = row.len() - 1;
                    }
                    if file_data.max_index_seen >= file_data.max_index_required {
                        file_data.complete = true;
                    }
                }
                Ok(())
            },
            FieldKind::All => Ok(()),
        }
    }

    /// The row rewritten to the resolved columns, in resolution order.
    pub fn transform_row(&self, file_data: &FileData, row: Vec<String>) -> (r: Vec<String>)
        ensures
            r.deep_view() == project_row(self@, file_data@, row.deep_view()),
    {
        if self.field_kind.is_none() {
            return row;
        }
        let ghost rv = row.deep_view();
        let mut out: Vec<String> = Vec::new();
        let mut i: usize = 0;
        assert(file_data.indexes@.take(0) =~= Seq::<usize>::empty());
        while i < file_data.indexes.len()
            invariant
                i <= file_data.indexes.len(),
                rv == row.deep_view(),
                out.deep_view() == project(
                    file_data.indexes@.take(i as int),
                    file_data.max_index_seen,
                    rv,
                    Seq::empty(),
                ),
            decreases file_data.indexes.len() - i,
        {
            let ghost iv = file_data.indexes@;
            assert(iv.take(i + 1).drop_last() =~= iv.take(i as int));
            let ghost before = out.deep_view();
            let index = file_data.indexes[i];
            if index <= file_data.max_index_seen {
                if index < row.len() {
                    let field = row[index].clone();
                    out.push(field);
                    assert(out.deep_view() =~= before.push(rv[index as int]));
                } else {
                    out.push(String::new());
                    assert(out.deep_view() =~= before.push(Seq::empty()));
                }
            }
            i = i + 1;
        }
        assert(file_data.indexes@.take(i as int) =~= file_data.indexes@);
        out
    }

    /// The width vector rewritten as `transform_row` rewrites rows.
    pub fn transform_col_widths(&self, file_data: &FileData, row: Vec<usize>) -> (r: Vec<usize>)
        ensures
            r@ == project_widths(self@, file_data@, row@),
    {
        if self.field_kind.is_none() {
            return row;
        }
        let mut out: Vec<usize> = Vec::new();
        let mut i: usize = 0;
        assert(file_data.indexes@.take(0) =~= Seq::<usize>::empty());
        while i < file_data.indexes.len()
            invariant
                i <= file_data.indexes.len(),
                out@ == project(file_data.indexes@.take(i as int), file_data.max_index_seen, row@, 0usize),
            decreases file_data.indexes.len() - i,
        {
            let ghost iv = file_data.indexes@;
            assert(iv.take(i + 1).drop_last() =~= iv.take(i as int));
            let index = file_data.indexes[i];
            if index <= file_data.max_index_seen {
                if index < row.len() {
                    out.push(row[index]);
                } else {
                    out.push(0);
                }
            }
            i = i + 1;
        }
        assert(file_data.indexes@.take(i as int) =~= file_data.indexes@);
        out
    }
}

/// Projecting through an empty subset hands every row back unchanged.
pub proof fn lemma_project_all_identity(fd: FileState, row: Seq<Seq<char>>)
    ensures
        project_row(KindModel::All, fd, row) == row,
{
}

} // verus!
