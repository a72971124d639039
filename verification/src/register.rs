//! A table row: an association of column names to string values, with the
//! keys kept unique.

use vstd::prelude::*;

use crate::errors::SqlError;
use crate::text::{chars_to_string, join_comma, str_chars, str_eq};

verus! {

/// A table row. The entries pair each column name with its value; a
/// well-formed row names each column at most once (see [`Register::wf`]).
#[derive(Clone, Debug, PartialEq)]
pub struct Register(pub Vec<(String, String)>);

/// The mapping an entry sequence denotes: a later entry for the same key
/// overrides an earlier one.
pub open spec fn entries_map(s: Seq<(String, String)>) -> Map<Seq<char>, Seq<char>>
    decreases s.len(),
{
    if s.len() == 0 {
        Map::empty()
    } else {
        entries_map(s.drop_last()).insert(s.last().0@, s.last().1@)
    }
}

impl View for Register {
    type V = Map<Seq<char>, Seq<char>>;

    open spec fn view(&self) -> Map<Seq<char>, Seq<char>> {
        entries_map(self.0@)
    }
}

/// Every key of the mapping comes from some entry, and under unique keys each
/// entry gives its key's value.
proof fn lemma_entries_map_keys(s: Seq<(String, String)>, k: Seq<char>)
    ensures
        entries_map(s).contains_key(k) <==> exists|i: int| 0 <= i < s.len() && s[i].0@ == k,
    decreases s.len(),
{
    if s.len() > 0 {
        lemma_entries_map_keys(s.drop_last(), k);
        if entries_map(s).contains_key(k) {
            if s.last().0@ == k {
                assert(s[s.len() - 1].0@ == k);
            } else {
                let i = choose|i: int| 0 <= i < s.drop_last().len() && s.drop_last()[i].0@ == k;
                assert(s[i].0@ == k);
            }
        }
        if exists|i: int| 0 <= i < s.len() && s[i].0@ == k {
            let i = choose|i: int| 0 <= i < s.len() && s[i].0@ == k;
            if i < s.len() - 1 {
                assert(s.drop_last()[i].0@ == k);
            }
        }
    }
}

/// Under unique keys, the entry holding a key gives that key's value.
proof fn lemma_entries_map_value(s: Seq<(String, String)>, i: int)
    requires
        0 <= i < s.len(),
        forall|p: int, q: int| 0 <= p < q < s.len() ==> s[p].0@ != s[q].0@,
    ensures
        entries_map(s).contains_key(s[i].0@),
        entries_map(s)[s[i].0@] == s[i].1@,
    decreases s.len(),
{
    lemma_entries_map_keys(s, s[i].0@);
    if i < s.len() - 1 {
        assert(s.last().0@ != s[i].0@);
        assert(s.drop_last()[i] == s[i]);
        lemma_entries_map_value(s.drop_last(), i);
    }
}

impl Register {
    /// A well-formed row names each column at most once.
    pub open spec fn wf(&self) -> bool {
        forall|p: int, q: int| 0 <= p < q < self.0@.len() ==> self.0@[p].0@ != self.0@[q].0@
    }

    /// Creates an empty row.
    pub fn new() -> (r: Register)
        ensures
            r.wf(),
            r@ == Map::<Seq<char>, Seq<char>>::empty(),
    {
        Register(Vec::new())
    }

    /// Returns true if the row has no entries.
    pub fn is_empty(&self) -> (r: bool)
        ensures
            r == (self@ == Map::<Seq<char>, Seq<char>>::empty()),
    {
        proof {
            if self.0@.len() > 0 {
                lemma_entries_map_keys(self.0@, self.0@.last().0@);
                assert(self@.contains_key(self.0@.last().0@));
            }
        }
        self.0.is_empty()
    }

    /// Sets the value of a column, replacing any earlier value for it.
    pub fn insert(&mut self, key: String, value: String)
        requires
            old(self).wf(),
        ensures
            final(self).wf(),
            final(self)@ == old(self)@.insert(key@, value@),
    {
        let n = self.0.len();
        let mut i: usize = 0;
        while i < n
            invariant
                i <= n,
                n == self.0@.len(),
                *self == *old(self),
                old(self).wf(),
                forall|j: int| 0 <= j < i ==> self.0@[j].0@ != key@,
            decreases n - i,
        {
            if str_eq(self.0[i].0.as_str(), key.as_str()) {
                let ghost s0 = self.0@;
                self.0[i] = (key, value);
                proof {
                    lemma_entries_map_update(s0, i as int, self.0@[i as int]);
                }
                return ;
            }
            i = i + 1;
        }
        let ghost s0 = self.0@;
        self.0.push((key, value));
        proof {
            assert(self.0@.drop_last() =~= s0);
            assert(forall|p: int, q: int|
                0 <= p < q < self.0@.len() ==> self.0@[p].0@ != self.0@[q].0@);
        }
    }

    /// Looks a column up and returns its value, or `None` when the row does
    /// not name the column.
    pub fn get(&self, field: &str) -> (r: Option<&String>)
        requires
            self.wf(),
        ensures
            match r {
                Some(v) => self@.contains_key(field@) && v@ == self@[field@],
                None => !self@.contains_key(field@),
            },
    {
        let n = self.0.len();
        let mut i: usize = 0;
        while i < n
            invariant
                i <= n,
                n == self.0@.len(),
                self.wf(),
                forall|j: int| 0 <= j < i ==> self.0@[j].0@ != field@,
            decreases n - i,
        {
            if str_eq(self.0[i].0.as_str(), field) {
                proof {
                    lemma_entries_map_value(self.0@, i as int);
                }
                return Some(&self.0[i].1);
            }
            i = i + 1;
        }
        proof {
            lemma_entries_map_keys(self.0@, field@);
        }
        None
    }

    /// Builds the row that holds, for each given column, this row's value for
    /// it — or the empty string where this row lacks the column.
    pub fn project_columns(&self, columns: &Vec<String>) -> (r: Register)
        requires
            self.wf(),
        ensures
            r.wf(),
            r@ == copy_columns(self@, columns.deep_view()),
    {
        let mut result = Register::new();
        let n = columns.len();
        let mut i: usize = 0;
        while i < n
            invariant
                i <= n,
                n == columns@.len(),
                self.wf(),
                result.wf(),
                result@ == copy_columns(self@, columns.deep_view().take(i as int)),
            decreases n - i,
        {
            proof {
                assert(columns.deep_view()[i as int] == columns@[i as int]@);
            }
            let value = match self.get(columns[i].as_str()) {
                Some(v) => v.clone(),
                None => String::new(),
            };
            result.insert(columns[i].clone(), value);
            proof {
                assert(columns.deep_view().take(i + 1).drop_last() =~= columns.deep_view().take(
                    i as int,
                ));
            }
            i = i + 1;
        }
        proof {
            assert(columns.deep_view().take(n as int) =~= columns.deep_view());
        }
        result
    }

    /// Builds the row that keeps only this row's entries for the given
    /// columns: its mapping is this row's mapping restricted to them.
    pub fn restrict_columns(&self, columns: &Vec<String>) -> (r: Register)
        requires
            self.wf(),
        ensures
            r.wf(),
            r@ == self@.restrict(columns.deep_view().to_set()),
    {
        let mut result = Register::new();
        let n = columns.len();
        let mut i: usize = 0;
        while i < n
            invariant
                i <= n,
                n == columns@.len(),
                self.wf(),
                result.wf(),
                result@ == keep_columns(self@, columns.deep_view().take(i as int)),
            decreases n - i,
        {
            proof {
                assert(columns.deep_view()[i as int] == columns@[i as int]@);
                assert(columns.deep_view().take(i + 1).drop_last() =~= columns.deep_view().take(
                    i as int,
                ));
            }
            match self.get(columns[i].as_str()) {
                Some(v) => {
                    let value = v.clone();
                    result.insert(columns[i].clone(), value);
                },
                None => {},
            }
            i = i + 1;
        }
        proof {
            assert(columns.deep_view().take(n as int) =~= columns.deep_view());
            lemma_keep_columns_is_restrict(self@, columns.deep_view());
        }
        result
    }

    /// The character sequences the columns' values form, joined by commas,
    /// when every column is present; the generic evaluation error otherwise.
    pub open spec fn spec_to_csv(&self, columns: Seq<Seq<char>>) -> Result<Seq<char>, SqlError> {
        if forall|i: int| 0 <= i < columns.len() ==> self@.contains_key(columns[i]) {
            Ok(join_comma(columns.map_values(|c: Seq<char>| self@[c])))
        } else {
            Err(SqlError::Error)
        }
    }

    /// Converts the row to one line of comma-separated values, ordered by
    /// `columns`. Fails with the generic error if a column is not in the row.
    pub fn to_csv(&self, columns: &Vec<String>) -> (r: Result<String, SqlError>)
        requires
            self.wf(),
        ensures
            match (r, self.spec_to_csv(columns.deep_view())) {
                (Ok(line), Ok(expected)) => line@ == expected,
                (Err(e1), Err(e2)) => e1 == e2,
                _ => false,
            },
    {
        let mut out: Vec<char> = Vec::new();
        let n = columns.len();
        let mut i: usize = 0;
        while i < n
            invariant
                i <= n,
                n == columns@.len(),
                self.wf(),
                forall|j: int| 0 <= j < i ==> self@.contains_key(columns.deep_view()[j]),
                out@ == join_comma(
                    columns.deep_view().take(i as int).map_values(|c: Seq<char>| self@[c]),
                ),
            decreases n - i,
        {
            let ghost vals = columns.deep_view().take(i as int).map_values(
                |c: Seq<char>| self@[c],
            );
            proof {
                assert(columns.deep_view()[i as int] == columns@[i as int]@);
            }
            match self.get(columns[i].as_str()) {
                Some(value) => {
                    if i > 0 {
                        out.push(',');
                    }
                    let mut vchars = str_chars(value.as_str());
                    out.append(&mut vchars);
                    proof {
                        let vals2 = columns.deep_view().take(i + 1).map_values(
                            |c: Seq<char>| self@[c],
                        );
                        assert(vals2.drop_last() =~= vals);
                        assert(vals2.last() == self@[columns.deep_view()[i as int]]);
                        if i == 0 {
                            assert(out@ =~= join_comma(vals2));
                        } else {
                            assert(out@ =~= join_comma(vals2.drop_last()) + seq![','] + vals2.last());
                        }
                    }
                },
                None => {
                    return Err(SqlError::Error);
                },
            }
            i = i + 1;
        }
        proof {
            assert(columns.deep_view().take(n as int) =~= columns.deep_view());
        }
        Ok(chars_to_string(&out))
    }
}

/// The mapping that pairs each given column with `m`'s value for it, or with
/// the empty sequence where `m` lacks the column.
pub open spec fn copy_columns(m: Map<Seq<char>, Seq<char>>, cols: Seq<Seq<char>>) -> Map<
    Seq<char>,
    Seq<char>,
>
    decreases cols.len(),
{
    if cols.len() == 0 {
        Map::empty()
    } else {
        copy_columns(m, cols.drop_last()).insert(
            cols.last(),
            if m.contains_key(cols.last()) {
                m[cols.last()]
            } else {
                Seq::empty()
            },
        )
    }
}

/// The mapping restricted to the given columns, built one column at a time:
/// a column is kept only where the mapping has it.
pub open spec fn keep_columns(m: Map<Seq<char>, Seq<char>>, cols: Seq<Seq<char>>) -> Map<
    Seq<char>,
    Seq<char>,
>
    decreases cols.len(),
{
    if cols.len() == 0 {
        Map::empty()
    } else {
        let rest = keep_columns(m, cols.drop_last());
        if m.contains_key(cols.last()) {
            rest.insert(cols.last(), m[cols.last()])
        } else {
            rest
        }
    }
}

/// Keeping the present columns is the same as restricting the mapping to the
/// column set.
proof fn lemma_keep_columns_is_restrict(m: Map<Seq<char>, Seq<char>>, cols: Seq<Seq<char>>)
    ensures
        keep_columns(m, cols) == m.restrict(cols.to_set()),
    decreases cols.len(),
{
    if cols.len() == 0 {
        assert(keep_columns(m, cols) =~= m.restrict(cols.to_set()));
    } else {
        lemma_keep_columns_is_restrict(m, cols.drop_last());
        assert forall|x: Seq<char>| #[trigger]
            cols.contains(x) implies (cols.drop_last().contains(x) || x == cols.last()) by {
            let k = choose|k: int| 0 <= k < cols.len() && cols[k] == x;
            if k < cols.len() - 1 {
                assert(cols.drop_last()[k] == x);
            }
        }
        assert forall|x: Seq<char>| (cols.drop_last().contains(x) || x
            == cols.last()) implies #[trigger] cols.contains(x) by {
            if cols.drop_last().contains(x) {
                let k = choose|k: int| 0 <= k < cols.drop_last().len() && cols.drop_last()[k] == x;
                assert(cols[k] == x);
            } else {
                assert(cols[cols.len() - 1] == x);
            }
        }
        assert(keep_columns(m, cols) =~= m.restrict(cols.to_set()));
    }
}

/// Replacing the entry that holds a key denotes inserting into the mapping.
proof fn lemma_entries_map_update(s: Seq<(String, String)>, i: int, e: (String, String))
    requires
        0 <= i < s.len(),
        s[i].0@ == e.0@,
        forall|p: int, q: int| 0 <= p < q < s.len() ==> s[p].0@ != s[q].0@,
    ensures
        entries_map(s.update(i, e)) =~= entries_map(s).insert(e.0@, e.1@),
        forall|p: int, q: int|
            0 <= p < q < s.update(i, e).len() ==> s.update(i, e)[p].0@ != s.update(i, e)[q].0@,
    decreases s.len(),
{
    let t = s.update(i, e);
    if i == s.len() - 1 {
        assert(t.drop_last() =~= s.drop_last());
        assert(t.last() == e);
        assert(entries_map(t) =~= entries_map(s).insert(e.0@, e.1@));
    } else {
        assert(t.drop_last() =~= s.drop_last().update(i, e));
        lemma_entries_map_update(s.drop_last(), i, e);
        assert(t.last() == s.last());
        assert(s.last().0@ != e.0@);
        assert(entries_map(t) =~= entries_map(s).insert(e.0@, e.1@));
    }
}

} // verus!
