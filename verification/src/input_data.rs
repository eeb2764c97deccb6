//! Input data: named variables and rows of observed values.
use vstd::prelude::*;
use crate::error::{decimal_spec, decimal_string};
use crate::lexer::{is_constant_reader, lemma_read_call, read_spec};
use crate::settings::str_equal;
use crate::types::{lemma_string_views_push, string_views};

verus! {

/// Rows of values of named variables; the last variable is the output one.
/// A value is held as the IEEE-754 binary64 bit pattern of the number.
#[derive(Debug, PartialEq)]
pub struct InputData {
    pub variables: Vec<String>,
    pub rows: Vec<Vec<u64>>,
}

/// Why input data was refused.
#[derive(Debug, PartialEq)]
pub struct InputDataError {
    message: String,
}

impl View for InputDataError {
    type V = Seq<char>;

    closed spec fn view(&self) -> Seq<char> {
        self.message@
    }
}

impl InputDataError {
    /// The message of the error, as its `Display` would print it.
    pub fn to_string(&self) -> (r: String)
        ensures
            r@ == self@,
    {
        self.message.clone()
    }
}

/// How many times `x` occurs in `s`.
pub open spec fn occurrences(s: Seq<Seq<char>>, x: Seq<char>) -> nat
    decreases s.len(),
{
    if s.len() == 0 {
        0
    } else {
        occurrences(s.drop_last(), x) + (if s.last() == x {
            1nat
        } else {
            0nat
        })
    }
}

/// The first position, from `i` on, of a name that occurs in `s` more
/// than once.
pub open spec fn first_repeated_from(s: Seq<Seq<char>>, i: int) -> Option<int>
    decreases s.len() - i,
{
    if i < 0 || i >= s.len() {
        None
    } else if occurrences(s, s[i]) > 1 {
        Some(i)
    } else {
        first_repeated_from(s, i + 1)
    }
}

/// The first position, from `i` on, of a row with fewer than `n` values.
pub open spec fn first_short_row_from(rows: Seq<Vec<u64>>, n: nat, i: int) -> Option<int>
    decreases rows.len() - i,
{
    if i < 0 || i >= rows.len() {
        None
    } else if rows[i].len() < n {
        Some(i)
    } else {
        first_short_row_from(rows, n, i + 1)
    }
}

pub open spec fn too_few_variables_message() -> Seq<char> {
    "The \"InputData\" struct must contain at least two variables, of which the last variable is output one."@
}

pub open spec fn repeated_variable_message(name: Seq<char>, count: nat) -> Seq<char> {
    "The variable \""@ + name + "\" occurs "@ + decimal_spec(count) + " times."@
}

pub open spec fn short_row_message(index: nat, len: nat, expected: nat) -> Seq<char> {
    "The row at index "@ + decimal_spec(index) + " contains "@ + decimal_spec(len)
        + " values, but must contain "@ + decimal_spec(expected) + "."@
}

/// What is wrong with a list of variable names: fewer than two, or a name
/// given twice (the first such in order); `None` when nothing is.
pub open spec fn variables_problem(variables: Seq<Seq<char>>) -> Option<Seq<char>> {
    if variables.len() < 2 {
        Some(too_few_variables_message())
    } else {
        match first_repeated_from(variables, 0) {
            Some(i) => Some(repeated_variable_message(variables[i], occurrences(variables, variables[i]))),
            None => None,
        }
    }
}

/// What is wrong with input data made of `variables` and `rows`: first what
/// is wrong with the variables, then a row with fewer values than there are
/// variables (the first such row); `None` when nothing is.
pub open spec fn input_data_problem(variables: Seq<Seq<char>>, rows: Seq<Vec<u64>>) -> Option<Seq<char>> {
    match variables_problem(variables) {
        Some(m) => Some(m),
        None => match first_short_row_from(rows, variables.len(), 0) {
            Some(i) => Some(short_row_message(i as nat, rows[i].len() as nat, variables.len())),
            None => None,
        },
    }
}

/// `r` is what checking `variables` and `rows` gives: the data as they
/// are, or the first problem.
pub open spec fn checked_input_data(
    variables: Seq<String>,
    rows: Seq<Vec<u64>>,
    r: Result<InputData, InputDataError>,
) -> bool {
    match r {
        Ok(d) => input_data_problem(string_views(variables), rows) is None && d.variables@ == variables
            && d.rows@ == rows,
        Err(e) => input_data_problem(string_views(variables), rows) == Some(e@),
    }
}

/// How many strings of `v` equal `x`.
fn count_occurrences(v: &Vec<String>, x: &str) -> (r: usize)
    ensures
        r == occurrences(string_views(v@), x@),
{
    let ghost s = string_views(v@);
    let mut count: usize = 0;
    let mut k: usize = 0;
    while k < v.len()
        invariant
            0 <= k <= v@.len(),
            s == string_views(v@),
            count <= k,
            count == occurrences(s.take(k as int), x@),
        decreases v@.len() - k,
    {
        proof {
            assert(s.take(k + 1).drop_last() =~= s.take(k as int));
            assert(s.take(k + 1).last() == v@[k as int]@);
        }
        if str_equal(v[k].as_str(), x) {
            count = count + 1;
        }
        k = k + 1;
    }
    assert(s.take(v@.len() as int) =~= s);
    count
}

impl InputData {
    /// Input data made of `variables` and `rows`, once checked: at least
    /// two variables, none named twice, and no row with fewer values than
    /// there are variables.
    pub fn new(variables: Vec<String>, rows: Vec<Vec<u64>>) -> (r: Result<InputData, InputDataError>)
        ensures
            checked_input_data(variables@, rows@, r),
            r matches Ok(d) ==> forall|j: int| 0 <= j < d.rows@.len() ==> #[trigger] d.rows@[j].len() >= d.variables@.len(),
            (exists|j: int| 0 <= j < rows@.len() && #[trigger] rows@[j].len() < variables@.len()) ==> r is Err,
    {
        let r = InputData::checked(variables, rows);
        proof {
            if r is Ok {
                law_checked_rows_are_full(variables@, rows@, r, 0);
            }
            if exists|j: int| 0 <= j < rows@.len() && #[trigger] rows@[j].len() < variables@.len() {
                let j = choose|j: int| 0 <= j < rows@.len() && #[trigger] rows@[j].len() < variables@.len();
                law_checked_rows_are_full(variables@, rows@, r, j);
            }
        }
        r
    }

    fn checked(variables: Vec<String>, rows: Vec<Vec<u64>>) -> (r: Result<InputData, InputDataError>)
        ensures
            checked_input_data(variables@, rows@, r),
    {
        let ghost s = string_views(variables@);
        if variables.len() < 2 {
            return Err(
                InputDataError {
                    message: String::from_str(
                        "The \"InputData\" struct must contain at least two variables, of which the last variable is output one.",
                    ),
                },
            );
        }
        let n = variables.len();
        let mut i: usize = 0;
        while i < n
            invariant
                0 <= i <= n,
                n == variables@.len(),
                n >= 2,
                s == string_views(variables@),
                first_repeated_from(s, 0) == first_repeated_from(s, i as int),
            decreases n - i,
        {
            let count = count_occurrences(&variables, variables[i].as_str());
            if count > 1 {
                proof {
                    assert(s[i as int] == variables@[i as int]@);
                    assert(first_repeated_from(s, i as int) == Some(i as int));
                }
                let mut message = String::from_str("The variable \"");
                message.append(variables[i].as_str());
                message.append("\" occurs ");
                message.append(decimal_string(count).as_str());
                message.append(" times.");
                proof {
                    assert(message@ == repeated_variable_message(s[i as int], count as nat));
                    assert(s.len() == n);
                    assert(first_repeated_from(s, 0) == Some(i as int));
                    assert(occurrences(s, s[i as int]) == count);
                    assert(input_data_problem(s, rows@) == Some(message@));
                }
                return Err(InputDataError { message });
            }
            i = i + 1;
        }
        assert(first_repeated_from(s, n as int) is None);
        let mut j: usize = 0;
        while j < rows.len()
            invariant
                0 <= j <= rows@.len(),
                n == variables@.len(),
                n >= 2,
                first_short_row_from(rows@, n as nat, 0) == first_short_row_from(rows@, n as nat, j as int),
                s == string_views(variables@),
                first_repeated_from(s, 0) is None,
            decreases rows@.len() - j,
        {
            if rows[j].len() < n {
                proof {
                    assert(first_short_row_from(rows@, n as nat, j as int) == Some(j as int));
                }
                let mut message = String::from_str("The row at index ");
                message.append(decimal_string(j).as_str());
                message.append(" contains ");
                message.append(decimal_string(rows[j].len()).as_str());
                message.append(" values, but must contain ");
                message.append(decimal_string(n).as_str());
                message.append(".");
                proof {
                    assert(s.len() == n);
                    assert(message@ == short_row_message(j as nat, rows@[j as int].len() as nat, n as nat));
                    assert(input_data_problem(s, rows@) == Some(message@));
                }
                return Err(InputDataError { message });
            }
            j = j + 1;
        }
        proof {
            assert(first_short_row_from(rows@, n as nat, j as int) is None);
        }
        Ok(InputData { variables, rows })
    }
}

/// The rows of a matrix, each as a sequence.
pub open spec fn matrix_view<T>(v: Seq<Vec<T>>) -> Seq<Seq<T>> {
    v.map_values(|row: Vec<T>| row@)
}

/// Every row of `v` has as many values as its first row.
pub open spec fn is_rectangular<T>(v: Seq<Seq<T>>) -> bool {
    v.len() > 0 && forall|j: int| 0 <= j < v.len() ==> #[trigger] v[j].len() == v[0].len()
}

/// `t` is the transpose of `v` over the width of its first row: row `i` of
/// `t` holds, in order, a clone of value `i` of each row of `v`.
pub open spec fn is_transpose_of<T: Clone>(t: Seq<Seq<T>>, v: Seq<Seq<T>>) -> bool {
    &&& v.len() > 0
    &&& t.len() == v[0].len()
    &&& forall|i: int| 0 <= i < t.len() ==> #[trigger] t[i].len() == v.len()
    &&& forall|i: int, j: int|
        #![trigger t[i][j]]
        0 <= i < t.len() && 0 <= j < v.len() ==> cloned(v[j][i], t[i][j])
}

/// The transpose of a non-empty matrix whose rows are at least as long as
/// its first one.
pub fn transpose<T: Clone>(v: Vec<Vec<T>>) -> (r: Vec<Vec<T>>)
    requires
        v@.len() > 0,
        forall|j: int| 0 <= j < v@.len() ==> #[trigger] v@[j]@.len() >= v@[0]@.len(),
    ensures
        is_transpose_of(matrix_view(r@), matrix_view(v@)),
{
    let width = v[0].len();
    let mut r: Vec<Vec<T>> = Vec::new();
    let mut i: usize = 0;
    while i < width
        invariant
            0 <= i <= width,
            width == v@[0]@.len(),
            v@.len() > 0,
            forall|j: int| 0 <= j < v@.len() ==> #[trigger] v@[j]@.len() >= v@[0]@.len(),
            r@.len() == i,
            forall|a: int| 0 <= a < i ==> #[trigger] r@[a]@.len() == v@.len(),
            forall|a: int, j: int|
                #![trigger r@[a]@[j]]
                0 <= a < i && 0 <= j < v@.len() ==> cloned(v@[j]@[a], r@[a]@[j]),
        decreases width - i,
    {
        let mut column: Vec<T> = Vec::new();
        let mut j: usize = 0;
        while j < v.len()
            invariant
                0 <= j <= v@.len(),
                i < width,
                width == v@[0]@.len(),
                forall|b: int| 0 <= b < v@.len() ==> #[trigger] v@[b]@.len() >= v@[0]@.len(),
                column@.len() == j,
                forall|b: int| 0 <= b < j ==> cloned(v@[b]@[i as int], #[trigger] column@[b]),
            decreases v@.len() - j,
        {
            assert(v@[j as int]@.len() >= v@[0]@.len());
            column.push(v[j][i].clone());
            j = j + 1;
        }
        r.push(column);
        i = i + 1;
    }
    proof {
        let t = matrix_view(r@);
        let m = matrix_view(v@);
        assert forall|a: int, j: int| 0 <= a < t.len() && 0 <= j < m.len() implies cloned(m[j][a], #[trigger] t[a][j]) by {
            assert(r@[a]@[j] == t[a][j]);
        }
    }
    r
}

/// Transposing a rectangular matrix with at least one column twice gives a
/// matrix of the same shape, each value a clone of a clone of the value in
/// its place; where cloning gives back an equal value, the same matrix.
pub proof fn law_transpose_twice<T: Clone>(v: Seq<Seq<T>>, t: Seq<Seq<T>>, u: Seq<Seq<T>>)
    requires
        is_rectangular(v),
        v[0].len() > 0,
        is_transpose_of(t, v),
        is_transpose_of(u, t),
    ensures
        u.len() == v.len(),
        forall|j: int| 0 <= j < u.len() ==> #[trigger] u[j].len() == v[j].len(),
        forall|j: int, i: int|
            #![trigger u[j][i]]
            0 <= j < u.len() && 0 <= i < u[j].len() ==> cloned(v[j][i], t[i][j]) && cloned(t[i][j], u[j][i]),
        (forall|a: T, b: T| cloned(a, b) ==> a == b) ==> u == v,
{
    assert forall|j: int| 0 <= j < u.len() implies #[trigger] u[j].len() == v[j].len() by {
        assert(v[j].len() == v[0].len());
    }
    assert forall|j: int, i: int| 0 <= j < u.len() && 0 <= i < u[j].len() implies cloned(v[j][i], t[i][j]) && cloned(t[i][j], #[trigger] u[j][i]) by {
        assert(v[j].len() == v[0].len());
        assert(t[i].len() == v.len());
    }
    if forall|a: T, b: T| cloned(a, b) ==> a == b {
        assert forall|j: int| 0 <= j < u.len() implies #[trigger] u[j] == v[j] by {
            assert(v[j].len() == v[0].len());
            assert forall|i: int| 0 <= i < u[j].len() implies u[j][i] == v[j][i] by {
                assert(t[i].len() == v.len());
                assert(cloned(v[j][i], t[i][j]));
                assert(cloned(t[i][j], u[j][i]));
            }
            assert(u[j] =~= v[j]);
        }
        assert(u =~= v);
    }
}

/// The length of the longest column.
pub open spec fn longest_column(columns: Seq<(String, Vec<u64>)>) -> nat
    decreases columns.len(),
{
    if columns.len() == 0 {
        0
    } else {
        let rest = longest_column(columns.drop_last());
        let last = columns.last().1.len() as nat;
        if last > rest {
            last
        } else {
            rest
        }
    }
}

/// The first position, from `i` on, of a column with fewer than `n` values.
pub open spec fn first_short_column_from(columns: Seq<(String, Vec<u64>)>, n: nat, i: int) -> Option<int>
    decreases columns.len() - i,
{
    if i < 0 || i >= columns.len() {
        None
    } else if columns[i].1.len() < n {
        Some(i)
    } else {
        first_short_column_from(columns, n, i + 1)
    }
}

pub open spec fn short_column_message(name: Seq<char>, len: nat, expected: nat) -> Seq<char> {
    "The variable \""@ + name + "\" contains "@ + decimal_spec(len) + " values, but must contain "@
        + decimal_spec(expected) + "."@
}

/// What is wrong with named columns of values: a column shorter than the
/// longest one (the first such in order); `None` when nothing is.
pub open spec fn columns_problem(columns: Seq<(String, Vec<u64>)>) -> Option<Seq<char>> {
    match first_short_column_from(columns, longest_column(columns), 0) {
        Some(i) => Some(short_column_message(columns[i].0@, columns[i].1.len() as nat, longest_column(columns))),
        None => None,
    }
}

pub open spec fn column_names(columns: Seq<(String, Vec<u64>)>) -> Seq<String> {
    columns.map_values(|c: (String, Vec<u64>)| c.0)
}

/// `rows` hold the values of `columns` row by row: row `i` holds value `i`
/// of each column, in the order of the columns.
pub open spec fn rows_of_columns(rows: Seq<Vec<u64>>, columns: Seq<(String, Vec<u64>)>) -> bool {
    &&& rows.len() == longest_column(columns)
    &&& forall|i: int| 0 <= i < rows.len() ==> #[trigger] rows[i].len() == columns.len()
    &&& forall|i: int, j: int|
        #![trigger rows[i]@[j]]
        0 <= i < rows.len() && 0 <= j < columns.len() ==> rows[i]@[j] == columns[j].1@[i]
}

/// `r` is what building input data from `columns` gives: the columns
/// checked first, then the variables they name.
pub open spec fn built_from_columns(columns: Seq<(String, Vec<u64>)>, r: Result<InputData, InputDataError>) -> bool {
    match r {
        Ok(d) => columns_problem(columns) is None && variables_problem(string_views(column_names(columns))) is None
            && d.variables@ == column_names(columns) && rows_of_columns(d.rows@, columns),
        Err(e) => match columns_problem(columns) {
            Some(m) => e@ == m,
            None => variables_problem(string_views(column_names(columns))) == Some(e@),
        },
    }
}

proof fn lemma_longest_column(columns: Seq<(String, Vec<u64>)>)
    ensures
        forall|j: int| 0 <= j < columns.len() ==> #[trigger] columns[j].1.len() <= longest_column(columns),
        columns.len() > 0 ==> exists|j: int| 0 <= j < columns.len() && #[trigger] columns[j].1.len() == longest_column(columns),
    decreases columns.len(),
{
    if columns.len() > 0 {
        let rest = columns.drop_last();
        lemma_longest_column(rest);
        assert forall|j: int| 0 <= j < columns.len() implies #[trigger] columns[j].1.len() <= longest_column(columns) by {
            if j < rest.len() {
                assert(rest[j] == columns[j]);
            }
        }
        if columns.last().1.len() <= longest_column(rest) && rest.len() > 0 {
            let j = choose|j: int| 0 <= j < rest.len() && #[trigger] rest[j].1.len() == longest_column(rest);
            assert(columns[j] == rest[j]);
        } else {
            assert(columns[columns.len() - 1].1.len() == longest_column(columns));
        }
    }
}

proof fn lemma_no_short_row(rows: Seq<Vec<u64>>, n: nat, i: int)
    requires
        0 <= i,
        forall|j: int| 0 <= j < rows.len() ==> #[trigger] rows[j].len() >= n,
    ensures
        first_short_row_from(rows, n, i) is None,
    decreases rows.len() - i,
{
    if i < rows.len() {
        lemma_no_short_row(rows, n, i + 1);
    }
}

proof fn lemma_first_short_row(rows: Seq<Vec<u64>>, n: nat, i: int)
    requires
        0 <= i,
    ensures
        match first_short_row_from(rows, n, i) {
            Some(k) => i <= k < rows.len() && rows[k].len() < n && forall|j: int|
                i <= j < k ==> #[trigger] rows[j].len() >= n,
            None => forall|j: int| i <= j < rows.len() ==> #[trigger] rows[j].len() >= n,
        },
    decreases rows.len() - i,
{
    if i < rows.len() {
        lemma_first_short_row(rows, n, i + 1);
    }
}

/// Checking input data lets no short row through: data that pass hold at
/// least one value per variable in every row, and when the variables are in
/// order, a row with fewer values than there are variables, wherever it
/// stands, is refused with a message about the first such row.
pub proof fn law_checked_rows_are_full(
    variables: Seq<String>,
    rows: Seq<Vec<u64>>,
    r: Result<InputData, InputDataError>,
    i: int,
)
    requires
        checked_input_data(variables, rows, r),
    ensures
        r matches Ok(d) ==> forall|j: int| 0 <= j < d.rows@.len() ==> #[trigger] d.rows@[j].len() >= d.variables@.len(),
        0 <= i < rows.len() && rows[i].len() < variables.len() ==> r is Err,
        variables_problem(string_views(variables)) is None && 0 <= i < rows.len() && rows[i].len() < variables.len()
            && (forall|j: int| 0 <= j < i ==> #[trigger] rows[j].len() >= variables.len()) ==> (r matches Err(e)
            && e@ == short_row_message(i as nat, rows[i].len() as nat, variables.len() as nat)),
{
    let n = string_views(variables).len();
    assert(n == variables.len());
    lemma_first_short_row(rows, n, 0);
    if variables_problem(string_views(variables)) is None && 0 <= i < rows.len() && rows[i].len() < variables.len()
        && (forall|j: int| 0 <= j < i ==> #[trigger] rows[j].len() >= variables.len()) {
        let k = first_short_row_from(rows, n, 0);
        assert(k is Some);
        let k = k->0;
        if k < i {
            assert(rows[k].len() >= variables.len());
        }
        if i < k {
            assert(rows[i].len() >= n);
        }
    }
}

impl InputData {
    /// Input data from named columns of values, such as a JSON object of
    /// arrays gives: every column must be as long as the longest one; the
    /// names become the variables and the columns are turned into rows.
    pub fn from_columns(columns: Vec<(String, Vec<u64>)>) -> (r: Result<InputData, InputDataError>)
        requires
            columns@.len() > 0,
        ensures
            built_from_columns(columns@, r),
    {
        let ghost cols = columns@;
        let mut longest: usize = 0;
        let mut k: usize = 0;
        while k < columns.len()
            invariant
                0 <= k <= cols.len(),
                cols == columns@,
                longest == longest_column(cols.take(k as int)),
            decreases cols.len() - k,
        {
            proof {
                assert(cols.take(k + 1).drop_last() =~= cols.take(k as int));
            }
            if columns[k].1.len() > longest {
                longest = columns[k].1.len();
            }
            k = k + 1;
        }
        assert(cols.take(cols.len() as int) =~= cols);
        let mut k: usize = 0;
        while k < columns.len()
            invariant
                0 <= k <= cols.len(),
                cols == columns@,
                longest == longest_column(cols),
                first_short_column_from(cols, longest as nat, 0) == first_short_column_from(cols, longest as nat, k as int),
                forall|j: int| 0 <= j < k ==> #[trigger] cols[j].1.len() >= longest,
            decreases cols.len() - k,
        {
            if columns[k].1.len() < longest {
                proof {
                    assert(first_short_column_from(cols, longest as nat, k as int) == Some(k as int));
                }
                let mut message = String::from_str("The variable \"");
                message.append(columns[k].0.as_str());
                message.append("\" contains ");
                message.append(decimal_string(columns[k].1.len()).as_str());
                message.append(" values, but must contain ");
                message.append(decimal_string(longest).as_str());
                message.append(".");
                return Err(InputDataError { message });
            }
            k = k + 1;
        }
        proof {
            assert(first_short_column_from(cols, longest as nat, k as int) is None);
            lemma_longest_column(cols);
        }
        let mut columns = columns;
        let mut names: Vec<String> = Vec::new();
        let mut values: Vec<Vec<u64>> = Vec::new();
        let ghost mut done: int = 0;
        while columns.len() > 0
            invariant
                0 <= done <= cols.len(),
                columns@ == cols.skip(done),
                names@ == column_names(cols.take(done)),
                values@.len() == done,
                forall|j: int| 0 <= j < done ==> #[trigger] values@[j] == cols[j].1,
            decreases columns@.len(),
        {
            let (name, column) = columns.remove(0);
            proof {
                assert(cols.skip(done)[0] == cols[done]);
                assert(column_names(cols.take(done + 1)) =~= column_names(cols.take(done)).push(cols[done].0));
                assert(cols.skip(done + 1) =~= cols.skip(done).subrange(1, cols.skip(done).len() as int));
            }
            names.push(name);
            values.push(column);
            proof {
                done = done + 1;
            }
        }
        proof {
            assert(cols.take(done) =~= cols);
            assert forall|j: int| 0 <= j < values@.len() implies #[trigger] values@[j]@.len() >= values@[0]@.len() by {
                assert(values@[j] == cols[j].1);
                assert(values@[0] == cols[0].1);
                assert(cols[j].1.len() >= longest);
                assert(cols[0].1.len() <= longest);
            }
        }
        let rows = transpose(values);
        proof {
            let m = matrix_view(values@);
            let t = matrix_view(rows@);
            assert(m[0].len() == longest);
            assert forall|i: int, j: int| 0 <= i < rows@.len() && 0 <= j < cols.len() implies #[trigger] rows@[i]@[j] == cols[j].1@[i] by {
                assert(t[i][j] == rows@[i]@[j]);
                assert(m[j] == cols[j].1@);
                assert(cloned(m[j][i], t[i][j]));
            }
            assert forall|i: int| 0 <= i < rows@.len() implies #[trigger] rows@[i].len() == cols.len() by {
                assert(t[i].len() == m.len());
            }
            assert(names@.len() == cols.len());
            lemma_no_short_row(rows@, names@.len() as nat, 0);
        }
        InputData::new(names, rows)
    }
}

/// A worksheet cell as input data reads it: a number (the IEEE-754
/// binary64 bit pattern of its value), a text, or anything else.
#[derive(Debug, PartialEq)]
pub enum Cell {
    Number(u64),
    Text(String),
    Other,
}

/// The value a cell holds: a number, or a text that `read` reads as one.
pub open spec fn cell_value<F: Fn(&str) -> Option<u64>>(read: F, c: Cell) -> Option<u64> {
    match c {
        Cell::Number(b) => Some(b),
        Cell::Text(s) => read_spec(read, s@),
        Cell::Other => None,
    }
}

/// The first position, from `j` on, of a header cell that is not a text.
pub open spec fn first_non_text_from(header: Seq<Cell>, j: int) -> Option<int>
    decreases header.len() - j,
{
    if j < 0 || j >= header.len() {
        None
    } else if !(header[j] is Text) {
        Some(j)
    } else {
        first_non_text_from(header, j + 1)
    }
}

/// The first position, from `j` on, of a cell of `row` that holds no value.
pub open spec fn first_valueless_from<F: Fn(&str) -> Option<u64>>(read: F, row: Seq<Cell>, j: int) -> Option<int>
    decreases row.len() - j,
{
    if j < 0 || j >= row.len() {
        None
    } else if cell_value(read, row[j]) is None {
        Some(j)
    } else {
        first_valueless_from(read, row, j + 1)
    }
}

/// The first row, from `i` on, with a cell that holds no value, and the
/// position of the first such cell in it.
pub open spec fn first_valueless_row_from<F: Fn(&str) -> Option<u64>>(
    read: F,
    rows: Seq<Vec<Cell>>,
    i: int,
) -> Option<(int, int)>
    decreases rows.len() - i,
{
    if i < 0 || i >= rows.len() {
        None
    } else {
        match first_valueless_from(read, rows[i]@, 0) {
            Some(j) => Some((i, j)),
            None => first_valueless_row_from(read, rows, i + 1),
        }
    }
}

/// The texts of a header.
pub open spec fn header_names(header: Seq<Cell>) -> Seq<Seq<char>> {
    header.map_values(|c: Cell| match c {
        Cell::Text(s) => s@,
        _ => Seq::empty(),
    })
}

/// `rows` hold the values of the cells of `cells`, row for row.
pub open spec fn rows_of_cells<F: Fn(&str) -> Option<u64>>(read: F, rows: Seq<Vec<u64>>, cells: Seq<Vec<Cell>>) -> bool {
    &&& rows.len() == cells.len()
    &&& forall|i: int| 0 <= i < rows.len() ==> #[trigger] rows[i]@.len() == cells[i]@.len()
    &&& forall|i: int, j: int|
        #![trigger rows[i]@[j]]
        0 <= i < rows.len() && 0 <= j < rows[i]@.len() ==> cell_value(read, cells[i]@[j]) == Some(rows[i]@[j])
}

pub open spec fn no_rows_message() -> Seq<char> {
    "The worksheet must contain a rows."@
}

pub open spec fn header_cell_message(j: nat) -> Seq<char> {
    "Wrong cell type in the variables header at "@ + decimal_spec(j) + " index."@
}

pub open spec fn value_cell_message(j: nat, i: nat) -> Seq<char> {
    "Wrong cell type at index "@ + decimal_spec(j) + " in the row at index "@ + decimal_spec(i) + "."@
}

/// `r` is what reading a worksheet made of `cells` gives: the first row is
/// the header of variable names, the others hold values; rows are counted
/// from the first row of values.
pub open spec fn read_from_cells<F: Fn(&str) -> Option<u64>>(
    read: F,
    cells: Seq<Vec<Cell>>,
    r: Result<InputData, InputDataError>,
) -> bool {
    if cells.len() == 0 {
        r matches Err(e) && e@ == no_rows_message()
    } else {
        let header = cells[0]@;
        let values = cells.skip(1);
        match first_non_text_from(header, 0) {
            Some(j) => r matches Err(e) && e@ == header_cell_message(j as nat),
            None => match first_valueless_row_from(read, values, 0) {
                Some((i, j)) => r matches Err(e) && e@ == value_cell_message(j as nat, i as nat),
                None => match r {
                    Ok(d) => string_views(d.variables@) == header_names(header) && rows_of_cells(read, d.rows@, values)
                        && input_data_problem(header_names(header), d.rows@) is None,
                    Err(e) => exists|rows: Seq<Vec<u64>>|
                        rows_of_cells(read, rows, values) && input_data_problem(header_names(header), rows)
                            == Some(e@),
                },
            },
        }
    }
}

/// Reads the values of a row of cells; `Err` with the position of the
/// first cell that holds none.
fn row_values<F: Fn(&str) -> Option<u64>>(row: &Vec<Cell>, read: &F) -> (r: Result<Vec<u64>, usize>)
    requires
        is_constant_reader(*read),
    ensures
        match r {
            Ok(values) => first_valueless_from(*read, row@, 0) is None && values@.len() == row@.len()
                && forall|j: int| 0 <= j < row@.len() ==> cell_value(*read, #[trigger] row@[j]) == Some(values@[j]),
            Err(j) => first_valueless_from(*read, row@, 0) == Some(j as int),
        },
{
    let mut values: Vec<u64> = Vec::new();
    let mut j: usize = 0;
    while j < row.len()
        invariant
            0 <= j <= row@.len(),
            is_constant_reader(*read),
            first_valueless_from(*read, row@, 0) == first_valueless_from(*read, row@, j as int),
            values@.len() == j,
            forall|b: int| 0 <= b < j ==> cell_value(*read, #[trigger] row@[b]) == Some(values@[b]),
        decreases row@.len() - j,
    {
        let value = match &row[j] {
            Cell::Number(b) => Some(*b),
            Cell::Text(s) => {
                let text = s.as_str();
                let v = read(text);
                proof {
                    lemma_read_call(*read, text, v);
                }
                v
            },
            Cell::Other => None,
        };
        match value {
            Some(b) => values.push(b),
            None => {
                return Err(j);
            },
        }
        j = j + 1;
    }
    Ok(values)
}

impl InputData {
    /// Input data from the cells of a worksheet: the first row names the
    /// variables (text cells only), each further row holds values (number
    /// cells, or text cells that `read` reads as numbers).
    pub fn from_worksheet_range<F: Fn(&str) -> Option<u64>>(cells: Vec<Vec<Cell>>, read: &F) -> (r: Result<InputData, InputDataError>)
        requires
            is_constant_reader(*read),
        ensures
            read_from_cells(*read, cells@, r),
    {
        if cells.len() == 0 {
            return Err(InputDataError { message: String::from_str("The worksheet must contain a rows.") });
        }
        let ghost header = cells@[0]@;
        let mut variables: Vec<String> = Vec::new();
        let mut j: usize = 0;
        while j < cells[0].len()
            invariant
                0 <= j <= header.len(),
                cells@.len() > 0,
                header == cells@[0]@,
                first_non_text_from(header, 0) == first_non_text_from(header, j as int),
                string_views(variables@) == header_names(header).take(j as int),
            decreases header.len() - j,
        {
            match &cells[0][j] {
                Cell::Text(s) => {
                    proof {
                        assert(header_names(header)[j as int] == s@);
                    }
                    let ghost before = variables@;
                    let name = s.clone();
                    variables.push(name);
                    proof {
                        lemma_string_views_push(before, name);
                        assert(header_names(header).take(j + 1) =~= header_names(header).take(j as int).push(s@));
                    }
                },
                _ => {
                    proof {
                        assert(first_non_text_from(header, j as int) == Some(j as int));
                    }
                    let mut message = String::from_str("Wrong cell type in the variables header at ");
                    message.append(decimal_string(j).as_str());
                    message.append(" index.");
                    return Err(InputDataError { message });
                },
            }
            j = j + 1;
        }
        proof {
            assert(header_names(header).take(header.len() as int) =~= header_names(header));
            assert(first_non_text_from(header, j as int) is None);
        }
        let ghost values = cells@.skip(1);
        let mut rows: Vec<Vec<u64>> = Vec::new();
        let mut i: usize = 1;
        while i < cells.len()
            invariant
                1 <= i <= cells@.len(),
                values == cells@.skip(1),
                header == cells@[0]@,
                first_non_text_from(header, 0) is None,
                is_constant_reader(*read),
                first_valueless_row_from(*read, values, 0) == first_valueless_row_from(*read, values, i - 1),
                rows@.len() == i - 1,
                forall|a: int| 0 <= a < i - 1 ==> #[trigger] rows@[a]@.len() == values[a]@.len(),
                forall|a: int, b: int|
                    #![trigger rows@[a]@[b]]
                    0 <= a < i - 1 && 0 <= b < rows@[a]@.len() ==> cell_value(*read, values[a]@[b]) == Some(rows@[a]@[b]),
            decreases cells@.len() - i,
        {
            assert(values[i - 1] == cells@[i as int]);
            match row_values(&cells[i], read) {
                Ok(row) => {
                    rows.push(row);
                },
                Err(j) => {
                    proof {
                        assert(first_valueless_row_from(*read, values, i - 1) == Some((i - 1, j as int)));
                    }
                    let mut message = String::from_str("Wrong cell type at index ");
                    message.append(decimal_string(j).as_str());
                    message.append(" in the row at index ");
                    message.append(decimal_string(i - 1).as_str());
                    message.append(".");
                    return Err(InputDataError { message });
                },
            }
            i = i + 1;
        }
        proof {
            assert(first_valueless_row_from(*read, values, i - 1) is None);
            assert(rows_of_cells(*read, rows@, values));
        }
        InputData::new(variables, rows)
    }
}

} // verus!
