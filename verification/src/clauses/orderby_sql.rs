//! The `ORDER BY` clause: sorts a result set by columns, ascending or
//! descending.

use vstd::prelude::*;

use crate::errors::SqlError;
use crate::register::Register;
use crate::text::{lemma_lex_lt_trichotomy, lemma_prefix_len, lex_lt, prefix_len, str_eq, str_lt};
use crate::utils::{is_by, is_order};

verus! {

/// The `ORDER BY` SQL clause: the columns to sort by and the direction,
/// `ASC`, `DESC` or empty (empty sorts ascending).
#[derive(Debug, PartialEq)]
pub struct OrderBy {
    pub columns: Vec<String>,
    pub order: String,
}

/// Whether a token is neither of the direction keywords.
pub open spec fn not_direction(t: Seq<char>) -> bool {
    t != "DESC"@ && t != "ASC"@
}

/// What building an `ORDER BY` clause from its tokens yields: the two
/// keywords, then the columns up to an optional direction keyword.
pub open spec fn spec_orderby_from_tokens(toks: Seq<Seq<char>>) -> Result<
    (Seq<Seq<char>>, Seq<char>),
    SqlError,
> {
    if toks.len() < 3 {
        Err(SqlError::InvalidSyntax)
    } else if toks[0] != "ORDER"@ && toks[1] != "BY"@ {
        Err(SqlError::InvalidSyntax)
    } else {
        let stop = 2 + prefix_len(toks.skip(2), |t: Seq<char>| not_direction(t));
        Ok(
            (
                toks.subrange(2, stop as int),
                if stop < toks.len() {
                    toks[stop as int]
                } else {
                    Seq::empty()
                },
            ),
        )
    }
}

impl OrderBy {
    /// Creates a new `OrderBy` from tokens of the shape `ORDER`, `BY`,
    /// `columns`, then optionally `ASC` or `DESC`.
    pub fn new_from_tokens(tokens: Vec<&str>) -> (r: Result<OrderBy, SqlError>)
        ensures
            match (r, spec_orderby_from_tokens(tokens.deep_view())) {
                (Ok(ob), Ok((cols, ord))) => ob.columns.deep_view() == cols && ob.order@ == ord,
                (Err(e1), Err(e2)) => e1 == e2,
                _ => false,
            },
    {
        let ghost toks = tokens.deep_view();
        if tokens.len() < 3 {
            return Err(SqlError::InvalidSyntax);
        }
        proof {
            assert(toks[0] == tokens@[0]@);
            assert(toks[1] == tokens@[1]@);
        }
        if !is_order(tokens[0]) && !is_by(tokens[1]) {
            return Err(SqlError::InvalidSyntax);
        }
        let n = tokens.len();
        let mut columns: Vec<String> = Vec::new();
        let mut order = String::new();
        let mut i: usize = 2;
        loop
            invariant
                2 <= i <= n,
                n == tokens@.len(),
                toks == tokens.deep_view(),
                columns.deep_view() == toks.subrange(2, i as int),
                forall|j: int| 2 <= j < i ==> not_direction(toks[j]),
            ensures
                2 <= i <= n,
                columns.deep_view() == toks.subrange(2, i as int),
                forall|j: int| 2 <= j < i ==> not_direction(toks[j]),
                i < n ==> !not_direction(toks[i as int]),
            decreases n - i,
        {
            if i >= n {
                break ;
            }
            proof {
                assert(toks[i as int] == tokens@[i as int]@);
            }
            if str_eq(tokens[i], "DESC") || str_eq(tokens[i], "ASC") {
                break ;
            }
            columns.push(tokens[i].to_owned());
            proof {
                assert(toks.subrange(2, i + 1) =~= toks.subrange(2, i as int).push(toks[i as int]));
            }
            i = i + 1;
        }
        proof {
            assert(forall|j: int|
                0 <= j < i - 2 ==> toks.skip(2)[j] == toks[j + 2]);
            lemma_prefix_len(toks.skip(2), |t: Seq<char>| not_direction(t), i - 2);
        }
        if i < tokens.len() {
            proof {
                assert(toks[i as int] == tokens@[i as int]@);
            }
            order = tokens[i].to_owned();
        }
        Ok(OrderBy { columns, order })
    }

    /// Whether the clause sorts in descending order.
    pub open spec fn spec_desc(&self) -> bool {
        self.order@ == "DESC"@
    }

    /// Compares two registers under the clause: negative when `a` comes
    /// first, positive when `b` does, zero when the clause cannot tell them
    /// apart.
    fn compare(&self, a: &Register, b: &Register) -> (r: i32)
        requires
            a.wf(),
            b.wf(),
        ensures
            r as int == reg_order(self.columns.deep_view(), self.spec_desc(), a@, b@),
    {
        let ghost cd = self.columns.deep_view();
        let desc = str_eq(self.order.as_str(), "DESC");
        let n = self.columns.len();
        let mut k: usize = 0;
        proof {
            assert(cd.skip(0) =~= cd);
        }
        while k < n
            invariant
                k <= n,
                n == self.columns@.len(),
                cd == self.columns.deep_view(),
                desc == self.spec_desc(),
                a.wf(),
                b.wf(),
                reg_order(cd, desc, a@, b@) == reg_order(cd.skip(k as int), desc, a@, b@),
            decreases n - k,
        {
            proof {
                assert(cd[k as int] == self.columns@[k as int]@);
                assert(cd.skip(k as int)[0] == cd[k as int]);
                assert(cd.skip(k as int).drop_first() =~= cd.skip(k + 1));
            }
            let column = &self.columns[k];
            match (a.get(column.as_str()), b.get(column.as_str())) {
                (Some(val_a), Some(val_b)) => {
                    if !str_eq(val_a.as_str(), val_b.as_str()) {
                        if desc {
                            if str_lt(val_b.as_str(), val_a.as_str()) {
                                return -1;
                            } else {
                                return 1;
                            }
                        } else {
                            if str_lt(val_a.as_str(), val_b.as_str()) {
                                return -1;
                            } else {
                                return 1;
                            }
                        }
                    }
                },
                _ => {},
            }
            k = k + 1;
        }
        proof {
            assert(cd.skip(n as int) =~= Seq::<Seq<char>>::empty());
        }
        0
    }

    /// Sorts the registers by the clause's columns and direction: the result
    /// holds the same rows, each consecutive pair in order. A register that
    /// lacks a compared column is not told apart by it.
    pub fn execute(&self, registers: &mut Vec<Register>)
        requires
            forall|k: int|
                0 <= k < old(registers)@.len() ==> (#[trigger] old(registers)@[k]).wf(),
        ensures
            final(registers)@.len() == old(registers)@.len(),
            final(registers)@.to_multiset() == old(registers)@.to_multiset(),
            forall|k: int|
                0 <= k < final(registers)@.len() ==> (#[trigger] final(registers)@[k]).wf(),
            forall|k: int|
                0 <= k < final(registers)@.len() - 1 ==> reg_order(
                    self.columns.deep_view(),
                    self.spec_desc(),
                    final(registers)@[k]@,
                    #[trigger] final(registers)@[k + 1]@,
                ) <= 0,
    {
        let ghost cd = self.columns.deep_view();
        let ghost d = self.spec_desc();
        let n = registers.len();
        let mut i: usize = 1;
        while i < n
            invariant
                1 <= i,
                i <= n || n == 0,
                n == registers@.len(),
                cd == self.columns.deep_view(),
                d == self.spec_desc(),
                registers@.to_multiset() == old(registers)@.to_multiset(),
                forall|k: int| 0 <= k < n ==> (#[trigger] registers@[k]).wf(),
                forall|k: int|
                    0 <= k < i - 1 && k + 1 < n ==> reg_order(
                        cd,
                        d,
                        registers@[k]@,
                        #[trigger] registers@[k + 1]@,
                    ) <= 0,
            decreases n - i,
        {
            let mut j: usize = i;
            loop
                invariant
                    j <= i < n,
                    n == registers@.len(),
                    cd == self.columns.deep_view(),
                    d == self.spec_desc(),
                    forall|k: int| 0 <= k < n ==> (#[trigger] registers@[k]).wf(),
                    forall|k: int|
                        j <= k < i ==> reg_order(
                            cd,
                            d,
                            (#[trigger] registers@[k])@,
                            registers@[i as int]@,
                        ) > 0,
                ensures
                    j <= i < n,
                    forall|k: int|
                        j <= k < i ==> reg_order(
                            cd,
                            d,
                            (#[trigger] registers@[k])@,
                            registers@[i as int]@,
                        ) > 0,
                    j > 0 ==> reg_order(cd, d, registers@[j - 1]@, registers@[i as int]@) <= 0,
                decreases j,
            {
                if j == 0 {
                    break ;
                }
                let c = self.compare(&registers[j - 1], &registers[i]);
                if c > 0 {
                    j = j - 1;
                } else {
                    break ;
                }
            }
            let ghost before = registers@;
            let x = registers.remove(i);
            registers.insert(j, x);
            proof {
                lemma_sorted_insert_step(before, registers@, cd, d, i as int, j as int);
            }
            i = i + 1;
        }
    }
}

/// The order two rows compare in under a column list: the first column both
/// rows have with differing values decides, lexicographically — reversed when
/// `desc` holds; rows the columns cannot tell apart compare as zero.
pub open spec fn reg_order(
    cols: Seq<Seq<char>>,
    desc: bool,
    a: Map<Seq<char>, Seq<char>>,
    b: Map<Seq<char>, Seq<char>>,
) -> int
    decreases cols.len(),
{
    if cols.len() == 0 {
        0
    } else {
        let c = cols[0];
        if a.contains_key(c) && b.contains_key(c) {
            let av = a[c];
            let bv = b[c];
            if av == bv {
                reg_order(cols.drop_first(), desc, a, b)
            } else if desc {
                if lex_lt(bv, av) {
                    -1
                } else {
                    1
                }
            } else {
                if lex_lt(av, bv) {
                    -1
                } else {
                    1
                }
            }
        } else {
            reg_order(cols.drop_first(), desc, a, b)
        }
    }
}

/// Swapping the rows flips the comparison's sign.
proof fn lemma_reg_order_antisym(
    cols: Seq<Seq<char>>,
    desc: bool,
    a: Map<Seq<char>, Seq<char>>,
    b: Map<Seq<char>, Seq<char>>,
)
    ensures
        reg_order(cols, desc, a, b) == -reg_order(cols, desc, b, a),
    decreases cols.len(),
{
    if cols.len() > 0 {
        let c = cols[0];
        if a.contains_key(c) && b.contains_key(c) && a[c] != b[c] {
            lemma_lex_lt_trichotomy(a[c], b[c]);
        } else {
            lemma_reg_order_antisym(cols.drop_first(), desc, a, b);
        }
    }
}

/// Inserting an element into a sequence adds it to the sequence's multiset.
proof fn lemma_to_multiset_insert(s: Seq<Register>, j: int, x: Register)
    requires
        0 <= j <= s.len(),
    ensures
        s.insert(j, x).to_multiset() == s.to_multiset().insert(x),
{
    broadcast use vstd::seq_lib::group_to_multiset_ensures;

    let t = s.insert(j, x);
    assert(t.remove(j) =~= s);
    assert(t[j] == x);
    assert(t.remove(j).to_multiset() =~= t.to_multiset().remove(t[j]));
    assert(t.contains(x));
    assert(t.to_multiset().count(x) > 0);
    assert(t.to_multiset() =~= s.to_multiset().insert(x));
}

/// Moving the element at `i` back to position `j` keeps the rows, keeps them
/// well-formed, and keeps every consecutive pair up to `i` in order, given
/// that the scan placed `j` correctly.
proof fn lemma_sorted_insert_step(
    before: Seq<Register>,
    after: Seq<Register>,
    cols: Seq<Seq<char>>,
    desc: bool,
    i: int,
    j: int,
)
    requires
        0 <= j <= i < before.len(),
        after == before.remove(i).insert(j, before[i]),
        forall|k: int| 0 <= k < before.len() ==> (#[trigger] before[k]).wf(),
        forall|k: int|
            0 <= k < i - 1 ==> reg_order(cols, desc, before[k]@, #[trigger] before[k + 1]@) <= 0,
        forall|k: int|
            j <= k < i ==> reg_order(cols, desc, (#[trigger] before[k])@, before[i]@) > 0,
        j > 0 ==> reg_order(cols, desc, before[j - 1]@, before[i]@) <= 0,
    ensures
        after.len() == before.len(),
        after.to_multiset() == before.to_multiset(),
        forall|k: int| 0 <= k < after.len() ==> (#[trigger] after[k]).wf(),
        forall|k: int|
            0 <= k < i ==> reg_order(cols, desc, after[k]@, #[trigger] after[k + 1]@) <= 0,
{
    let x = before[i];
    broadcast use vstd::seq_lib::group_to_multiset_ensures;

    before.remove_ensures(i);
    before.remove(i).insert_ensures(j, x);
    assert(before.remove(i).to_multiset() =~= before.to_multiset().remove(x));
    lemma_to_multiset_insert(before.remove(i), j, x);
    assert(before.to_multiset().count(x) > 0) by {
        assert(before.contains(x));
    }
    assert(after.to_multiset() =~= before.to_multiset());

    assert forall|k: int| 0 <= k < after.len() implies (#[trigger] after[k]).wf() by {
        if k < j {
            assert(after[k] == before[k]);
        } else if k == j {
            assert(after[k] == x);
        } else if k <= i {
            assert(after[k] == before[k - 1]);
        } else {
            assert(after[k] == before[k]);
        }
    }

    assert forall|k: int|
        0 <= k < i implies reg_order(cols, desc, after[k]@, #[trigger] after[k + 1]@) <= 0 by {
        if k + 1 < j {
            assert(after[k] == before[k]);
            assert(after[k + 1] == before[k + 1]);
        } else if k + 1 == j {
            assert(after[k] == before[k]);
            assert(after[k + 1] == x);
            assert(k == j - 1);
        } else if k == j {
            assert(after[k] == x);
            assert(after[k + 1] == before[k]);
            assert(reg_order(cols, desc, before[k]@, x@) > 0);
            lemma_reg_order_antisym(cols, desc, x@, before[k]@);
        } else {
            assert(after[k] == before[k - 1]);
            assert(after[k + 1] == before[k]);
        }
    }
}

} // verus!
