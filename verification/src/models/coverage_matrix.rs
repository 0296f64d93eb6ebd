//! The coverage matrix: one row per observed test run, one column per tracked
//! model element, and the vector that says which runs failed.
use crate::text::{clone_texts, same_text};
use crate::views::{lemma_columns_deep_view, lemma_deep_view_index};
use vstd::prelude::*;
use vstd::std_specs::cmp::PartialEqSpecImpl;
use vstd::string::*;

verus! {

/// The columns that a list of keys and a list of columns stand for: column `i`
/// under key `i`.
pub open spec fn keyed(keys: Seq<Seq<char>>, columns: Seq<Seq<bool>>) -> Map<
    Seq<char>,
    Seq<bool>,
> {
    Map::new(|k: Seq<char>| keys.contains(k), |k: Seq<char>| columns[keys.index_of(k)])
}

/// Where no key occurs twice, each key leads to the column at its own place.
pub proof fn lemma_keyed(keys: Seq<Seq<char>>, columns: Seq<Seq<bool>>)
    requires
        keys.no_duplicates(),
    ensures
        forall|k: Seq<char>| keyed(keys, columns).dom().contains(k) <==> keys.contains(k),
        forall|i: int|
            0 <= i < keys.len() ==> keyed(keys, columns).dom().contains(#[trigger] keys[i])
                && keyed(keys, columns)[keys[i]] == columns[i],
{
    assert forall|i: int| 0 <= i < keys.len() implies keyed(keys, columns).dom().contains(
        #[trigger] keys[i],
    ) && keyed(keys, columns)[keys[i]] == columns[i] by {
        assert(keys.contains(keys[i]));
        let j = keys.index_of(keys[i]);
        assert(0 <= j < keys.len() && keys[j] == keys[i]);
    }
}

/// What a `CoverageMatrix` stands for.
pub struct CoverageMatrixView {
    /// For each test run, whether it failed.
    pub error_vector: Seq<bool>,
    /// For each test run, its identity.
    pub test_id_vector: Seq<i64>,
    /// For each tracked element, for each test run, whether the run covered it.
    pub data: Map<Seq<char>, Seq<bool>>,
}

impl CoverageMatrixView {
    /// The number of test runs.
    pub open spec fn number_of_tests(self) -> nat {
        self.error_vector.len()
    }

    /// Every column and the vector of identities have one entry per test run.
    pub open spec fn wf(self) -> bool {
        &&& self.test_id_vector.len() == self.error_vector.len()
        &&& forall|k: Seq<char>|
            self.data.dom().contains(k) ==> (#[trigger] self.data[k]).len()
                == self.error_vector.len()
    }

    /// The merge of two matrices over the same test runs: the columns of both,
    /// those of `other` taking the place of columns of the same key, with the
    /// failure vector and the identities of `self`. There is none where the
    /// numbers of test runs differ.
    pub open spec fn append(self, other: CoverageMatrixView) -> Option<CoverageMatrixView> {
        if self.number_of_tests() == other.number_of_tests() {
            Some(
                CoverageMatrixView {
                    error_vector: self.error_vector,
                    test_id_vector: self.test_id_vector,
                    data: self.data.union_prefer_right(other.data),
                },
            )
        } else {
            None
        }
    }
}

/// The parts of a matrix fit together: no key occurs twice, and every column
/// and the vector of identities have one entry per test run.
pub open spec fn parts_fit(
    error_vector: Seq<bool>,
    test_id_vector: Seq<i64>,
    keys: Seq<Seq<char>>,
    columns: Seq<Seq<bool>>,
) -> bool {
    &&& test_id_vector.len() == error_vector.len()
    &&& keys.len() == columns.len()
    &&& keys.no_duplicates()
    &&& forall|i: int| 0 <= i < columns.len() ==> (#[trigger] columns[i]).len() == error_vector.len()
}

/// The matrix that fitting parts stand for.
pub open spec fn matrix_of(
    error_vector: Seq<bool>,
    test_id_vector: Seq<i64>,
    keys: Seq<Seq<char>>,
    columns: Seq<Seq<bool>>,
) -> CoverageMatrixView {
    CoverageMatrixView { error_vector, test_id_vector, data: keyed(keys, columns) }
}

/// Fitting parts stand for a well-formed matrix.
pub proof fn lemma_parts_fit(
    error_vector: Seq<bool>,
    test_id_vector: Seq<i64>,
    keys: Seq<Seq<char>>,
    columns: Seq<Seq<bool>>,
)
    requires
        parts_fit(error_vector, test_id_vector, keys, columns),
    ensures
        matrix_of(error_vector, test_id_vector, keys, columns).wf(),
{
    lemma_keyed(keys, columns);
    let m = matrix_of(error_vector, test_id_vector, keys, columns);
    assert forall|k: Seq<char>| m.data.dom().contains(k) implies (#[trigger] m.data[k]).len()
        == error_vector.len() by {
        let i = keys.index_of(k);
        assert(0 <= i < keys.len() && keys[i] == k);
    }
}

/// The keys of a list of keyed columns.
pub open spec fn entry_keys(data: Seq<(Seq<char>, Seq<bool>)>) -> Seq<Seq<char>> {
    data.map_values(|e: (Seq<char>, Seq<bool>)| e.0)
}

/// The columns of a list of keyed columns.
pub open spec fn entry_columns(data: Seq<(Seq<char>, Seq<bool>)>) -> Seq<Seq<bool>> {
    data.map_values(|e: (Seq<char>, Seq<bool>)| e.1)
}

/// A boolean table with one row per test run and one column per tracked model
/// element, with the vector of failures and the identities of the runs.
#[derive(Debug)]
pub struct CoverageMatrix {
    error_vector: Vec<bool>,
    test_id_vector: Vec<i64>,
    column_keys: Vec<String>,
    columns: Vec<Vec<bool>>,
}

impl View for CoverageMatrix {
    type V = CoverageMatrixView;

    closed spec fn view(&self) -> CoverageMatrixView {
        matrix_of(
            self.error_vector@,
            self.test_id_vector@,
            self.column_keys.deep_view(),
            self.columns.deep_view(),
        )
    }
}

/// A copy of a list of booleans.
pub fn clone_flags(flags: &Vec<bool>) -> (copy: Vec<bool>)
    ensures
        copy@ == flags@,
{
    let mut copy: Vec<bool> = Vec::new();
    let mut i: usize = 0;
    while i < flags.len()
        invariant
            i <= flags.len(),
            copy@ == flags@.take(i as int),
        decreases flags.len() - i,
    {
        copy.push(flags[i]);
        proof {
            assert(copy@ =~= flags@.take(i + 1));
        }
        i += 1;
    }
    proof {
        assert(flags@.take(flags.len() as int) =~= flags@);
    }
    copy
}

/// A copy of a list of identities.
pub fn clone_ids(ids: &Vec<i64>) -> (copy: Vec<i64>)
    ensures
        copy@ == ids@,
{
    let mut copy: Vec<i64> = Vec::new();
    let mut i: usize = 0;
    while i < ids.len()
        invariant
            i <= ids.len(),
            copy@ == ids@.take(i as int),
        decreases ids.len() - i,
    {
        copy.push(ids[i]);
        proof {
            assert(copy@ =~= ids@.take(i + 1));
        }
        i += 1;
    }
    proof {
        assert(ids@.take(ids.len() as int) =~= ids@);
    }
    copy
}

/// Whether two lists of booleans are the same.
pub fn same_flags(a: &Vec<bool>, b: &Vec<bool>) -> (same: bool)
    ensures
        same == (a@ == b@),
{
    if a.len() != b.len() {
        return false;
    }
    let mut i: usize = 0;
    while i < a.len()
        invariant
            i <= a.len(),
            a.len() == b.len(),
            forall|j: int| 0 <= j < i ==> a[j] == b[j],
        decreases a.len() - i,
    {
        if a[i] != b[i] {
            return false;
        }
        i += 1;
    }
    proof {
        assert(a@ =~= b@);
    }
    true
}

/// Whether two lists of identities are the same.
pub fn same_ids(a: &Vec<i64>, b: &Vec<i64>) -> (same: bool)
    ensures
        same == (a@ == b@),
{
    if a.len() != b.len() {
        return false;
    }
    let mut i: usize = 0;
    while i < a.len()
        invariant
            i <= a.len(),
            a.len() == b.len(),
            forall|j: int| 0 <= j < i ==> a[j] == b[j],
        decreases a.len() - i,
    {
        if a[i] != b[i] {
            return false;
        }
        i += 1;
    }
    proof {
        assert(a@ =~= b@);
    }
    true
}

/// The first place of `key` among `keys`, if it is there.
pub fn find_key(keys: &Vec<String>, key: &str) -> (found: Option<usize>)
    ensures
        match found {
            Some(i) => i < keys.len() && keys[i as int]@ == key@ && forall|j: int|
                0 <= j < i ==> keys[j]@ != key@,
            None => !keys.deep_view().contains(key@),
        },
{
    let mut i: usize = 0;
    while i < keys.len()
        invariant
            i <= keys.len(),
            forall|j: int| 0 <= j < i ==> keys[j]@ != key@,
        decreases keys.len() - i,
    {
        if same_text(keys[i].as_str(), key) {
            return Some(i);
        }
        i += 1;
    }
    proof {
        lemma_deep_view_index(*keys);
    }
    None
}

impl CoverageMatrix {
    #[verifier::type_invariant]
    spec fn fits(&self) -> bool {
        parts_fit(
            self.error_vector@,
            self.test_id_vector@,
            self.column_keys.deep_view(),
            self.columns.deep_view(),
        )
    }

    /// The keys of the columns, in the order in which the matrix keeps them.
    pub closed spec fn column_order(&self) -> Seq<Seq<char>> {
        self.column_keys.deep_view()
    }

    /// Puts fitting parts together.
    pub(crate) fn from_parts(
        error_vector: Vec<bool>,
        test_id_vector: Vec<i64>,
        column_keys: Vec<String>,
        columns: Vec<Vec<bool>>,
    ) -> (matrix: CoverageMatrix)
        requires
            parts_fit(
                error_vector@,
                test_id_vector@,
                column_keys.deep_view(),
                columns.deep_view(),
            ),
        ensures
            matrix@ == matrix_of(
                error_vector@,
                test_id_vector@,
                column_keys.deep_view(),
                columns.deep_view(),
            ),
            matrix.column_order() == column_keys.deep_view(),
            matrix@.wf(),
    {
        proof {
            lemma_parts_fit(
                error_vector@,
                test_id_vector@,
                column_keys.deep_view(),
                columns.deep_view(),
            );
        }
        CoverageMatrix { error_vector, test_id_vector, column_keys, columns }
    }

    /// Whether a failure vector, the identities of the runs and a list of
    /// keyed columns fit together as `new` asks.
    pub fn accepts(
        error_vector: &Vec<bool>,
        test_id_vector: &Vec<i64>,
        data: &Vec<(String, Vec<bool>)>,
    ) -> (fit: bool)
        ensures
            fit == parts_fit(
                error_vector@,
                test_id_vector@,
                entry_keys(data.deep_view()),
                entry_columns(data.deep_view()),
            ),
    {
        let ghost keys = entry_keys(data.deep_view());
        let ghost columns = entry_columns(data.deep_view());
        proof {
            lemma_deep_view_index(*data);
        }
        if test_id_vector.len() != error_vector.len() {
            return false;
        }
        let mut i: usize = 0;
        while i < data.len()
            invariant
                i <= data.len(),
                keys == entry_keys(data.deep_view()),
                columns == entry_columns(data.deep_view()),
                keys.len() == data.len(),
                columns.len() == data.len(),
                forall|a: int| 0 <= a < data.len() ==> keys[a] == (#[trigger] data[a]).0@,
                forall|a: int| 0 <= a < data.len() ==> columns[a] == (#[trigger] data[a]).1@,
                forall|a: int| 0 <= a < i ==> (#[trigger] columns[a]).len() == error_vector.len(),
                forall|a: int, b: int| 0 <= a < b < i ==> keys[a] != keys[b],
            decreases data.len() - i,
        {
            if data[i].1.len() != error_vector.len() {
                proof {
                    assert(columns[i as int].len() != error_vector.len());
                }
                return false;
            }
            let mut j: usize = 0;
            while j < i
                invariant
                    j <= i,
                    i < data.len(),
                    keys == entry_keys(data.deep_view()),
                    keys.len() == data.len(),
                    forall|a: int| 0 <= a < data.len() ==> keys[a] == (#[trigger] data[a]).0@,
                    forall|a: int| 0 <= a < j ==> keys[a] != keys[i as int],
                decreases i - j,
            {
                if same_text(data[j].0.as_str(), data[i].0.as_str()) {
                    proof {
                        assert(keys[j as int] == keys[i as int]);
                        assert(!keys.no_duplicates());
                    }
                    return false;
                }
                j += 1;
            }
            i += 1;
        }
        true
    }

    /// A matrix of the given failure vector, identities and keyed columns.
    pub fn new(error_vector: Vec<bool>, test_id_vector: Vec<i64>, data: Vec<(String, Vec<bool>)>) -> (matrix: CoverageMatrix)
        requires
            parts_fit(
                error_vector@,
                test_id_vector@,
                entry_keys(data.deep_view()),
                entry_columns(data.deep_view()),
            ),
        ensures
            matrix@ == matrix_of(
                error_vector@,
                test_id_vector@,
                entry_keys(data.deep_view()),
                entry_columns(data.deep_view()),
            ),
            matrix.column_order() == entry_keys(data.deep_view()),
            matrix@.wf(),
    {
        let mut column_keys: Vec<String> = Vec::new();
        let mut columns: Vec<Vec<bool>> = Vec::new();
        proof {
            lemma_deep_view_index(data);
        }
        let mut i: usize = 0;
        while i < data.len()
            invariant
                i <= data.len(),
                column_keys.len() == i,
                columns.len() == i,
                forall|a: int| 0 <= a < i ==> (#[trigger] column_keys[a])@ == data[a].0@,
                forall|a: int| 0 <= a < i ==> (#[trigger] columns[a])@ == data[a].1@,
            decreases data.len() - i,
        {
            column_keys.push(data[i].0.clone());
            columns.push(clone_flags(&data[i].1));
            i += 1;
        }
        proof {
            lemma_deep_view_index(column_keys);
            lemma_deep_view_index(columns);
            assert(column_keys.deep_view() =~= entry_keys(data.deep_view()));
            assert forall|a: int| 0 <= a < columns.len() implies columns.deep_view()[a]
                == entry_columns(data.deep_view())[a] by {
                assert(columns.deep_view()[a] =~= columns[a]@);
            }
            assert(columns.deep_view() =~= entry_columns(data.deep_view()));
        }
        CoverageMatrix::from_parts(error_vector, test_id_vector, column_keys, columns)
    }

    /// The number of test runs.
    pub fn number_of_tests(&self) -> (n: usize)
        ensures
            n == self@.number_of_tests(),
            self@.wf(),
    {
        proof {
            use_type_invariant(self);
            lemma_parts_fit(
                self.error_vector@,
                self.test_id_vector@,
                self.column_keys.deep_view(),
                self.columns.deep_view(),
            );
        }
        self.error_vector.len()
    }

    /// The number of columns.
    pub fn number_of_steps(&self) -> (n: usize)
        ensures
            n == self.column_order().len(),
    {
        self.column_keys.len()
    }

    /// For each test run, whether it failed.
    pub fn error_vector(&self) -> (errors: &Vec<bool>)
        ensures
            errors@ == self@.error_vector,
    {
        &self.error_vector
    }

    /// For each test run, its identity.
    pub fn test_id_vector(&self) -> (ids: &Vec<i64>)
        ensures
            ids@ == self@.test_id_vector,
    {
        &self.test_id_vector
    }

    /// The keys of the columns, in the order in which the matrix keeps them.
    pub fn keys(&self) -> (keys: &Vec<String>)
        ensures
            keys.deep_view() == self.column_order(),
            self.column_order().no_duplicates(),
            forall|k: Seq<char>| self@.data.dom().contains(k) <==> self.column_order().contains(k),
    {
        proof {
            use_type_invariant(self);
            lemma_keyed(self.column_keys.deep_view(), self.columns.deep_view());
        }
        &self.column_keys
    }

    /// The column under `key`, if the matrix has one.
    pub fn column(&self, key: &str) -> (found: Option<&Vec<bool>>)
        ensures
            self@.wf(),
            match found {
                Some(column) => self@.data.dom().contains(key@) && column@ == self@.data[key@],
                None => !self@.data.dom().contains(key@),
            },
    {
        proof {
            use_type_invariant(self);
            lemma_keyed(self.column_keys.deep_view(), self.columns.deep_view());
            lemma_parts_fit(
                self.error_vector@,
                self.test_id_vector@,
                self.column_keys.deep_view(),
                self.columns.deep_view(),
            );
            lemma_deep_view_index(self.column_keys);
            lemma_deep_view_index(self.columns);
        }
        match find_key(&self.column_keys, key) {
            Some(i) => {
                proof {
                    assert(self.column_keys.deep_view()[i as int] == key@);
                    assert(self.columns.deep_view()[i as int] =~= self.columns[i as int]@);
                }
                Some(&self.columns[i])
            },
            None => None,
        }
    }
}

/// A copy of a list of columns.
pub fn clone_columns(columns: &Vec<Vec<bool>>) -> (copy: Vec<Vec<bool>>)
    ensures
        copy.deep_view() == columns.deep_view(),
{
    let mut copy: Vec<Vec<bool>> = Vec::new();
    let mut i: usize = 0;
    while i < columns.len()
        invariant
            i <= columns.len(),
            copy.len() == i,
            forall|a: int| 0 <= a < i ==> (#[trigger] copy[a])@ == columns[a]@,
        decreases columns.len() - i,
    {
        copy.push(clone_flags(&columns[i]));
        i += 1;
    }
    proof {
        lemma_columns_deep_view(copy);
        lemma_columns_deep_view(*columns);
        assert(copy.deep_view() =~= columns.deep_view());
    }
    copy
}

impl Clone for CoverageMatrix {
    fn clone(&self) -> (copy: Self)
        ensures
            copy@ == self@,
            copy.column_order() == self.column_order(),
    {
        proof {
            use_type_invariant(self);
        }
        CoverageMatrix {
            error_vector: clone_flags(&self.error_vector),
            test_id_vector: clone_ids(&self.test_id_vector),
            column_keys: clone_texts(&self.column_keys),
            columns: clone_columns(&self.columns),
        }
    }
}

/// What the lists that a matrix is kept in say of the columns they stand for.
pub proof fn lemma_kept(keys: Vec<String>, columns: Vec<Vec<bool>>)
    requires
        keys.len() == columns.len(),
        keys.deep_view().no_duplicates(),
    ensures
        forall|a: int|
            0 <= a < keys.len() ==> keys.deep_view()[a] == (#[trigger] keys[a])@ && keyed(
                keys.deep_view(),
                columns.deep_view(),
            ).dom().contains(keys[a]@) && keyed(keys.deep_view(), columns.deep_view())[keys[a]@]
                == columns[a]@,
        forall|a: int|
            0 <= a < keys.len() ==> columns.deep_view()[a] == (#[trigger] columns[a])@,
        forall|k: Seq<char>|
            keyed(keys.deep_view(), columns.deep_view()).dom().contains(k)
                <==> keys.deep_view().contains(k),
        forall|k: Seq<char>|
            keys.deep_view().contains(k) ==> 0 <= keys.deep_view().index_of(k) < keys.len()
                && keys[keys.deep_view().index_of(k)]@ == k,
{
    lemma_keyed(keys.deep_view(), columns.deep_view());
    lemma_deep_view_index(keys);
    lemma_columns_deep_view(columns);
    assert forall|a: int| 0 <= a < keys.len() implies keys.deep_view()[a] == (#[trigger] keys[a])@
        && keyed(keys.deep_view(), columns.deep_view()).dom().contains(keys[a]@) && keyed(
        keys.deep_view(),
        columns.deep_view(),
    )[keys[a]@] == columns[a]@ by {
        let k = keys.deep_view()[a];
        assert(k == keys[a]@);
        assert(keyed(keys.deep_view(), columns.deep_view())[k] == columns.deep_view()[a]);
    }
    assert forall|k: Seq<char>| keys.deep_view().contains(k) implies 0
        <= keys.deep_view().index_of(k) < keys.len() && keys[keys.deep_view().index_of(k)]@
        == k by {
        let a = keys.deep_view().index_of(k);
        assert(0 <= a < keys.len() && keys.deep_view()[a] == k);
    }
}

/// A list of keys without repetition and a list of columns stand for the map
/// `m` where the keys are the domain of `m` and each column is what `m` holds
/// under the key at its place.
pub proof fn lemma_keyed_is(
    keys: Seq<Seq<char>>,
    columns: Seq<Seq<bool>>,
    m: Map<Seq<char>, Seq<bool>>,
)
    requires
        keys.no_duplicates(),
        keys.len() == columns.len(),
        forall|k: Seq<char>| m.dom().contains(k) <==> keys.contains(k),
        forall|a: int| 0 <= a < keys.len() ==> columns[a] == m[#[trigger] keys[a]],
    ensures
        keyed(keys, columns) == m,
{
    lemma_keyed(keys, columns);
    assert forall|k: Seq<char>| keyed(keys, columns).dom().contains(k) implies keyed(
        keys,
        columns,
    )[k] == m[k] by {
        let a = keys.index_of(k);
        assert(0 <= a < keys.len() && keys[a] == k);
    }
    assert(keyed(keys, columns) =~= m);
}

/// The places of the keys of `right` that are not among `left`, in order.
fn fresh_places(left: &Vec<String>, right: &Vec<String>) -> (picked: Vec<usize>)
    ensures
        forall|p: int|
            0 <= p < picked.len() ==> (#[trigger] picked[p]) < right.len()
                && !left.deep_view().contains(right[picked[p] as int]@),
        forall|p: int, q: int| 0 <= p < q < picked.len() ==> picked[p] < picked[q],
        forall|b: int|
            0 <= b < right.len() && !left.deep_view().contains((#[trigger] right[b])@)
                ==> exists|p: int| 0 <= p < picked.len() && (#[trigger] picked[p]) == b,
{
    let mut picked: Vec<usize> = Vec::new();
    let mut j: usize = 0;
    while j < right.len()
        invariant
            j <= right.len(),
            forall|p: int|
                0 <= p < picked.len() ==> (#[trigger] picked[p]) < j
                    && !left.deep_view().contains(right[picked[p] as int]@),
            forall|p: int, q: int| 0 <= p < q < picked.len() ==> picked[p] < picked[q],
            forall|b: int|
                0 <= b < j && !left.deep_view().contains((#[trigger] right[b])@)
                    ==> exists|p: int| 0 <= p < picked.len() && (#[trigger] picked[p]) == b,
        decreases right.len() - j,
    {
        let ghost before = picked@;
        match find_key(left, right[j].as_str()) {
            Some(i) => {
                proof {
                    lemma_deep_view_index(*left);
                    assert(left.deep_view()[i as int] == right[j as int]@);
                }
            },
            None => {
                picked.push(j);
            },
        }
        proof {
            assert forall|b: int|
                0 <= b < j + 1 && !left.deep_view().contains(
                    (#[trigger] right[b])@,
                ) implies exists|p: int| 0 <= p < picked.len() && (#[trigger] picked[p]) == b by {
                if b < j {
                    let p = choose|p: int| 0 <= p < before.len() && (#[trigger] before[p]) == b;
                    assert(picked[p] == b);
                } else {
                    assert(picked[picked.len() - 1] == b);
                }
            }
        }
        j += 1;
    }
    picked
}

/// The keys and columns of a merge stand for the union of the two maps.
proof fn lemma_merged(
    lk: Seq<Seq<char>>,
    lc: Seq<Seq<bool>>,
    rk: Seq<Seq<char>>,
    rc: Seq<Seq<bool>>,
    picked: Seq<usize>,
    ks: Seq<Seq<char>>,
    cs: Seq<Seq<bool>>,
)
    requires
        lk.no_duplicates(),
        rk.no_duplicates(),
        lk.len() == lc.len(),
        rk.len() == rc.len(),
        forall|p: int|
            0 <= p < picked.len() ==> (#[trigger] picked[p]) < rk.len() && !lk.contains(
                rk[picked[p] as int],
            ),
        forall|p: int, q: int| 0 <= p < q < picked.len() ==> picked[p] < picked[q],
        forall|b: int|
            0 <= b < rk.len() && !lk.contains(#[trigger] rk[b]) ==> exists|p: int|
                0 <= p < picked.len() && (#[trigger] picked[p]) == b,
        ks.len() == lk.len() + picked.len(),
        cs.len() == ks.len(),
        forall|a: int| 0 <= a < lk.len() ==> #[trigger] ks[a] == lk[a],
        forall|a: int|
            0 <= a < lk.len() ==> #[trigger] cs[a] == (if rk.contains(lk[a]) {
                rc[rk.index_of(lk[a])]
            } else {
                lc[a]
            }),
        forall|p: int|
            0 <= p < picked.len() ==> #[trigger] ks[lk.len() + p] == rk[picked[p] as int],
        forall|p: int|
            0 <= p < picked.len() ==> #[trigger] cs[lk.len() + p] == rc[picked[p] as int],
    ensures
        ks.no_duplicates(),
        keyed(ks, cs) == keyed(lk, lc).union_prefer_right(keyed(rk, rc)),
{
    let left = keyed(lk, lc);
    let right = keyed(rk, rc);
    let both = left.union_prefer_right(right);
    let own = lk.len() as int;
    lemma_keyed(lk, lc);
    lemma_keyed(rk, rc);
    assert forall|a: int, b: int| 0 <= a < ks.len() && 0 <= b < ks.len() && a != b implies ks[a]
        != ks[b] by {
        let lo = if a < b {
            a
        } else {
            b
        };
        let hi = if a < b {
            b
        } else {
            a
        };
        if hi < own {
            assert(ks[lo] == lk[lo] && ks[hi] == lk[hi]);
        } else if lo < own {
            assert(ks[lo] == lk[lo]);
            assert(ks[own + (hi - own)] == rk[picked[hi - own] as int]);
            assert(lk.contains(lk[lo]));
        } else {
            assert(ks[own + (lo - own)] == rk[picked[lo - own] as int]);
            assert(ks[own + (hi - own)] == rk[picked[hi - own] as int]);
            assert(picked[lo - own] < picked[hi - own]);
        }
    }
    assert forall|k: Seq<char>| both.dom().contains(k) <==> ks.contains(k) by {
        if ks.contains(k) {
            let a = ks.index_of(k);
            assert(0 <= a < ks.len() && ks[a] == k);
            if a < own {
                assert(ks[a] == lk[a]);
                assert(lk.contains(lk[a]));
            } else {
                assert(ks[own + (a - own)] == rk[picked[a - own] as int]);
                assert(rk.contains(rk[picked[a - own] as int]));
            }
        }
        if both.dom().contains(k) {
            if lk.contains(k) {
                let a = lk.index_of(k);
                assert(0 <= a < own && lk[a] == k);
                assert(ks[a] == k);
            } else {
                assert(rk.contains(k));
                let b = rk.index_of(k);
                assert(0 <= b < rk.len() && rk[b] == k);
                let p = choose|p: int| 0 <= p < picked.len() && (#[trigger] picked[p]) == b;
                assert(ks[own + p] == rk[picked[p] as int]);
                assert(ks[own + p] == k);
            }
        }
    }
    assert forall|a: int| 0 <= a < ks.len() implies cs[a] == both[#[trigger] ks[a]] by {
        if a < own {
            assert(ks[a] == lk[a]);
            assert(left[lk[a]] == lc[a]);
            if rk.contains(lk[a]) {
                let b = rk.index_of(lk[a]);
                assert(0 <= b < rk.len() && rk[b] == lk[a]);
                assert(right[rk[b]] == rc[b]);
            }
        } else {
            let p = a - own;
            assert(ks[own + p] == rk[picked[p] as int]);
            assert(cs[own + p] == rc[picked[p] as int]);
            assert(right[rk[picked[p] as int]] == rc[picked[p] as int]);
        }
    }
    lemma_keyed_is(ks, cs, both);
}

impl CoverageMatrix {
    /// Whether every column of `self` stands in `other` under the same key
    /// with the same content.
    fn columns_within(&self, other: &CoverageMatrix) -> (within: bool)
        ensures
            within == self@.data.submap_of(other@.data),
    {
        proof {
            use_type_invariant(self);
            use_type_invariant(other);
            lemma_kept(self.column_keys, self.columns);
            lemma_kept(other.column_keys, other.columns);
        }
        let ghost mine = self@.data;
        let ghost theirs = other@.data;
        let mut i: usize = 0;
        while i < self.column_keys.len()
            invariant
                i <= self.column_keys.len(),
                self.column_keys.len() == self.columns.len(),
                other.column_keys.len() == other.columns.len(),
                mine == self@.data,
                theirs == other@.data,
                forall|a: int|
                    0 <= a < self.column_keys.len() ==> mine.dom().contains(
                        (#[trigger] self.column_keys[a])@,
                    ) && mine[self.column_keys[a]@] == self.columns[a]@,
                forall|a: int|
                    0 <= a < other.column_keys.len() ==> theirs.dom().contains(
                        (#[trigger] other.column_keys[a])@,
                    ) && theirs[other.column_keys[a]@] == other.columns[a]@,
                forall|k: Seq<char>|
                    theirs.dom().contains(k) <==> other.column_keys.deep_view().contains(k),
                forall|k: Seq<char>|
                    self.column_keys.deep_view().contains(k) ==> 0
                        <= self.column_keys.deep_view().index_of(k) < self.column_keys.len()
                        && self.column_keys[self.column_keys.deep_view().index_of(k)]@ == k,
                forall|k: Seq<char>|
                    mine.dom().contains(k) <==> self.column_keys.deep_view().contains(k),
                forall|a: int|
                    0 <= a < i ==> theirs.dom().contains((#[trigger] self.column_keys[a])@)
                        && theirs[self.column_keys[a]@] == mine[self.column_keys[a]@],
            decreases self.column_keys.len() - i,
        {
            match find_key(&other.column_keys, self.column_keys[i].as_str()) {
                Some(j) => {
                    if !same_flags(&self.columns[i], &other.columns[j]) {
                        proof {
                            let k = self.column_keys[i as int]@;
                            assert(other.column_keys[j as int]@ == k);
                            assert(mine.dom().contains(k));
                            assert(mine[k] != theirs[k]);
                        }
                        return false;
                    }
                    proof {
                        assert(other.column_keys[j as int]@ == self.column_keys[i as int]@);
                    }
                },
                None => {
                    proof {
                        let k = self.column_keys[i as int]@;
                        assert(mine.dom().contains(k));
                        assert(!theirs.dom().contains(k));
                    }
                    return false;
                },
            }
            i += 1;
        }
        proof {
            assert forall|k: Seq<char>| #[trigger] mine.dom().contains(k) implies theirs.dom().contains(
                k,
            ) && mine[k] == theirs[k] by {
                let a = self.column_keys.deep_view().index_of(k);
                assert(self.column_keys[a]@ == k);
            }
        }
        true
    }

    /// The merge of this matrix with `to_append`: the columns of both, those of
    /// `to_append` taking the place of columns of the same key, with the failure
    /// vector and the identities of this matrix. Fails where the two do not
    /// have the same number of test runs.
    pub fn append(&self, to_append: CoverageMatrix) -> (merged: Result<CoverageMatrix, String>)
        ensures
            match merged {
                Ok(matrix) => self@.append(to_append@) == Some(matrix@) && matrix@.wf(),
                Err(message) => self@.append(to_append@) is None && message@
                    == "number_of_tests was not equal for both coverage matrices"@,
            },
    {
        proof {
            use_type_invariant(self);
            use_type_invariant(&to_append);
            lemma_kept(self.column_keys, self.columns);
            lemma_kept(to_append.column_keys, to_append.columns);
        }
        if to_append.error_vector.len() != self.error_vector.len() {
            return Err(
                String::from_str("number_of_tests was not equal for both coverage matrices"),
            );
        }
        let ghost lk = self.column_keys.deep_view();
        let ghost lc = self.columns.deep_view();
        let ghost rk = to_append.column_keys.deep_view();
        let ghost rc = to_append.columns.deep_view();
        let ghost tests = self.error_vector.len();
        let mut keys: Vec<String> = Vec::new();
        let mut columns: Vec<Vec<bool>> = Vec::new();
        let mut i: usize = 0;
        while i < self.column_keys.len()
            invariant
                i <= self.column_keys.len(),
                lk == self.column_keys.deep_view(),
                lc == self.columns.deep_view(),
                rk == to_append.column_keys.deep_view(),
                rc == to_append.columns.deep_view(),
                lk.len() == lc.len(),
                rk.len() == rc.len(),
                self.column_keys.len() == self.columns.len(),
                to_append.column_keys.len() == to_append.columns.len(),
                forall|a: int| 0 <= a < lk.len() ==> lk[a] == (#[trigger] self.column_keys[a])@,
                forall|a: int| 0 <= a < lc.len() ==> lc[a] == (#[trigger] self.columns[a])@,
                forall|a: int| 0 <= a < rk.len() ==> rk[a] == (#[trigger] to_append.column_keys[a])@,
                forall|a: int| 0 <= a < rc.len() ==> rc[a] == (#[trigger] to_append.columns[a])@,
                rk.no_duplicates(),
                forall|a: int| 0 <= a < lc.len() ==> (#[trigger] lc[a]).len() == tests,
                forall|a: int| 0 <= a < rc.len() ==> (#[trigger] rc[a]).len() == tests,
                keys.len() == i,
                columns.len() == i,
                forall|a: int| 0 <= a < i ==> (#[trigger] keys[a])@ == lk[a],
                forall|a: int| 0 <= a < i ==> (#[trigger] columns[a])@.len() == tests,
                forall|a: int|
                    0 <= a < i ==> (#[trigger] columns[a])@ == (if rk.contains(lk[a]) {
                        rc[rk.index_of(lk[a])]
                    } else {
                        lc[a]
                    }),
            decreases self.column_keys.len() - i,
        {
            let key = self.column_keys[i].clone();
            let column = match find_key(&to_append.column_keys, key.as_str()) {
                Some(j) => {
                    proof {
                        assert(rk[j as int] == lk[i as int]);
                        let b = rk.index_of(lk[i as int]);
                        assert(rk.contains(lk[i as int]));
                        assert(0 <= b < rk.len() && rk[b] == lk[i as int]);
                        assert(b == j);
                    }
                    clone_flags(&to_append.columns[j])
                },
                None => clone_flags(&self.columns[i]),
            };
            keys.push(key);
            columns.push(column);
            i += 1;
        }
        let picked = fresh_places(&self.column_keys, &to_append.column_keys);
        let mut p: usize = 0;
        while p < picked.len()
            invariant
                p <= picked.len(),
                lk == self.column_keys.deep_view(),
                rk == to_append.column_keys.deep_view(),
                rc == to_append.columns.deep_view(),
                rk.len() == rc.len(),
                to_append.column_keys.len() == to_append.columns.len(),
                forall|a: int| 0 <= a < rk.len() ==> rk[a] == (#[trigger] to_append.column_keys[a])@,
                forall|a: int| 0 <= a < rc.len() ==> rc[a] == (#[trigger] to_append.columns[a])@,
                forall|a: int| 0 <= a < rc.len() ==> (#[trigger] rc[a]).len() == tests,
                forall|q: int| 0 <= q < picked.len() ==> (#[trigger] picked[q]) < rk.len(),
                keys.len() == lk.len() + p,
                columns.len() == keys.len(),
                forall|a: int| 0 <= a < lk.len() ==> (#[trigger] keys[a])@ == lk[a],
                forall|a: int| 0 <= a < keys.len() ==> (#[trigger] columns[a])@.len() == tests,
                forall|a: int|
                    0 <= a < lk.len() ==> (#[trigger] columns[a])@ == (if rk.contains(lk[a]) {
                        rc[rk.index_of(lk[a])]
                    } else {
                        self.columns.deep_view()[a]
                    }),
                forall|q: int|
                    0 <= q < p ==> (#[trigger] keys[lk.len() + q])@ == rk[picked[q] as int],
                forall|q: int|
                    0 <= q < p ==> (#[trigger] columns[lk.len() + q])@ == rc[picked[q] as int],
            decreases picked.len() - p,
        {
            let place = picked[p];
            keys.push(to_append.column_keys[place].clone());
            columns.push(clone_flags(&to_append.columns[place]));
            p += 1;
        }
        proof {
            lemma_deep_view_index(keys);
            lemma_columns_deep_view(columns);
            lemma_merged(lk, lc, rk, rc, picked@, keys.deep_view(), columns.deep_view());
        }
        Ok(
            CoverageMatrix::from_parts(
                clone_flags(&self.error_vector),
                clone_ids(&self.test_id_vector),
                keys,
                columns,
            ),
        )
    }
}

impl PartialEq for CoverageMatrix {
    fn eq(&self, other: &Self) -> (same: bool) {
        let same = same_flags(&self.error_vector, &other.error_vector) && same_ids(
            &self.test_id_vector,
            &other.test_id_vector,
        ) && self.columns_within(other) && other.columns_within(self);
        proof {
            if same {
                assert(self@.data =~= other@.data);
            }
        }
        same
    }
}

impl PartialEqSpecImpl for CoverageMatrix {
    open spec fn obeys_eq_spec() -> bool {
        true
    }

    open spec fn eq_spec(&self, other: &Self) -> bool {
        self@ == other@
    }
}

/// Merging is associative: it makes no difference which two of three matrices
/// are merged first.
pub proof fn law_append_associative(
    a: CoverageMatrixView,
    b: CoverageMatrixView,
    c: CoverageMatrixView,
)
    requires
        a.number_of_tests() == b.number_of_tests(),
        b.number_of_tests() == c.number_of_tests(),
    ensures
        a.append(b)->0.append(c) == a.append(b.append(c)->0),
        a.append(b)->0.append(c) is Some,
{
    let first = a.append(b)->0.append(c)->0;
    let second = a.append(b.append(c)->0)->0;
    assert(first.data =~= second.data);
}

/// Merging two matrices in either order gives the same set of columns.
pub proof fn law_append_columns_commutative(a: CoverageMatrixView, b: CoverageMatrixView)
    requires
        a.number_of_tests() == b.number_of_tests(),
    ensures
        a.append(b)->0.data.dom() == b.append(a)->0.data.dom(),
        a.append(b)->0.data.dom() == a.data.dom().union(b.data.dom()),
{
    assert(a.append(b)->0.data.dom() =~= b.append(a)->0.data.dom());
    assert(a.append(b)->0.data.dom() =~= a.data.dom().union(b.data.dom()));
}

/// Merging is commutative for two matrices that describe the same test runs
/// and agree on the columns that both of them have.
pub proof fn law_append_commutative(a: CoverageMatrixView, b: CoverageMatrixView)
    requires
        a.error_vector == b.error_vector,
        a.test_id_vector == b.test_id_vector,
        forall|k: Seq<char>|
            a.data.dom().contains(k) && b.data.dom().contains(k) ==> a.data[k] == b.data[k],
    ensures
        a.append(b) == b.append(a),
        a.append(b) is Some,
{
    assert(a.append(b)->0.data =~= b.append(a)->0.data);
}

/// Merging fails exactly where the numbers of test runs differ, and a merge
/// that succeeds keeps every column at its full length.
pub proof fn law_append_defined(a: CoverageMatrixView, b: CoverageMatrixView)
    requires
        a.wf(),
        b.wf(),
    ensures
        a.append(b) is Some <==> a.number_of_tests() == b.number_of_tests(),
        a.append(b) matches Some(m) ==> m.wf() && m.number_of_tests() == a.number_of_tests(),
{
}

} // verus!
