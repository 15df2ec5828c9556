//! The Filter Compiler: turns a structured boolean filter expression into a
//! parameterized SQL WHERE clause.
//!
//! Placeholders are numbered from the caller's starting index plus one and
//! advance by exactly one per bound condition; `is`/`is not` against a null
//! literal emits `NULL` directly and consumes no placeholder.  The SQL text
//! depends only on the table alias, the normalized field names, the
//! operators and the null flags — never on the literal values, which travel
//! exclusively through the ordered parameter list.

use vstd::prelude::*;

use crate::outcalls::{snake_of, to_snake_case};
use crate::text::{
    clone_strings, dec_str_of, join_strings, join_with, lemma_str_views_push, str_eq, str_views,
    usize_to_dec,
};

verus! {

/// The operators of the filter language.
#[derive(Debug, Clone, PartialEq, Eq, Structural)]
pub enum FilterOperators {
    Eq,
    Neq,
    Gt,
    Lt,
    Gte,
    Lte,
    Is,
    IsNot,
    Like,
    ILike,
    In,
    NotIn,
}

/// The SQL comparison symbol each operator compiles to.  `in` and `not in`
/// combine `=` / `!=` with the `ANY` / `ALL` placeholder wrapper to express
/// set membership.
pub open spec fn op_symbol(op: FilterOperators) -> Seq<char> {
    match op {
        FilterOperators::Eq => "="@,
        FilterOperators::Neq => "!="@,
        FilterOperators::Gt => ">"@,
        FilterOperators::Lt => "<"@,
        FilterOperators::Gte => ">="@,
        FilterOperators::Lte => "<="@,
        FilterOperators::Is => "IS NOT DISTINCT FROM"@,
        FilterOperators::IsNot => "IS DISTINCT FROM"@,
        FilterOperators::Like => "LIKE"@,
        FilterOperators::ILike => "ILIKE"@,
        FilterOperators::In => "="@,
        FilterOperators::NotIn => "!="@,
    }
}

/// The operator a request label denotes, if any.
pub open spec fn op_of_label(s: Seq<char>) -> Option<FilterOperators> {
    if s == "eq"@ {
        Some(FilterOperators::Eq)
    } else if s == "neq"@ {
        Some(FilterOperators::Neq)
    } else if s == "gt"@ {
        Some(FilterOperators::Gt)
    } else if s == "lt"@ {
        Some(FilterOperators::Lt)
    } else if s == "gte"@ {
        Some(FilterOperators::Gte)
    } else if s == "lte"@ {
        Some(FilterOperators::Lte)
    } else if s == "is"@ {
        Some(FilterOperators::Is)
    } else if s == "is not"@ {
        Some(FilterOperators::IsNot)
    } else if s == "like"@ {
        Some(FilterOperators::Like)
    } else if s == "ilike"@ {
        Some(FilterOperators::ILike)
    } else if s == "in"@ {
        Some(FilterOperators::In)
    } else if s == "not in"@ {
        Some(FilterOperators::NotIn)
    } else {
        None
    }
}

impl FilterOperators {
    /// The SQL symbol for this operator.
    pub fn sql_symbol(&self) -> (r: &'static str)
        ensures
            r@ == op_symbol(*self),
    {
        match self {
            FilterOperators::Eq => "=",
            FilterOperators::Neq => "!=",
            FilterOperators::Gt => ">",
            FilterOperators::Lt => "<",
            FilterOperators::Gte => ">=",
            FilterOperators::Lte => "<=",
            FilterOperators::Is => "IS NOT DISTINCT FROM",
            FilterOperators::IsNot => "IS DISTINCT FROM",
            FilterOperators::Like => "LIKE",
            FilterOperators::ILike => "ILIKE",
            FilterOperators::In => "=",
            FilterOperators::NotIn => "!=",
        }
    }

    /// Parses a request label into an operator.
    pub fn from_str(s: &str) -> (r: Option<FilterOperators>)
        ensures
            r == op_of_label(s@),
    {
        if str_eq(s, "eq") {
            Some(FilterOperators::Eq)
        } else if str_eq(s, "neq") {
            Some(FilterOperators::Neq)
        } else if str_eq(s, "gt") {
            Some(FilterOperators::Gt)
        } else if str_eq(s, "lt") {
            Some(FilterOperators::Lt)
        } else if str_eq(s, "gte") {
            Some(FilterOperators::Gte)
        } else if str_eq(s, "lte") {
            Some(FilterOperators::Lte)
        } else if str_eq(s, "is") {
            Some(FilterOperators::Is)
        } else if str_eq(s, "is not") {
            Some(FilterOperators::IsNot)
        } else if str_eq(s, "like") {
            Some(FilterOperators::Like)
        } else if str_eq(s, "ilike") {
            Some(FilterOperators::ILike)
        } else if str_eq(s, "in") {
            Some(FilterOperators::In)
        } else if str_eq(s, "not in") {
            Some(FilterOperators::NotIn)
        } else {
            None
        }
    }
}

/// One condition: a human-facing field name, an operator, and the literal's
/// serialized text.
#[derive(Debug, Clone)]
pub struct Condition {
    pub field: String,
    pub operator: FilterOperators,
    pub value: String,
}

/// The filter expression: an optional AND group and an optional OR group,
/// one level deep.
#[derive(Debug, Clone)]
pub struct Conditions {
    pub and: Option<Vec<Condition>>,
    pub or: Option<Vec<Condition>>,
}

/// Whether the condition's literal is the JSON `null`.
pub open spec fn cond_is_null(c: Condition) -> bool {
    c.value@ == "null"@
}

/// Whether the condition consumes a placeholder.  Only `is`/`is not`
/// against a null literal does not.
pub open spec fn consumes_param(c: Condition) -> bool {
    !((c.operator == FilterOperators::Is || c.operator == FilterOperators::IsNot) && cond_is_null(
        c,
    ))
}

/// The placeholder text for a bound condition numbered `n`.
pub open spec fn placeholder_text(op: FilterOperators, n: nat) -> Seq<char> {
    if op == FilterOperators::In {
        "ANY($"@ + dec_str_of(n) + ")"@
    } else if op == FilterOperators::NotIn {
        "ALL($"@ + dec_str_of(n) + ")"@
    } else {
        "$"@ + dec_str_of(n)
    }
}

/// The SQL text of one condition: the aliased snake-cased column, the
/// operator symbol, and either a numbered placeholder or the literal `NULL`.
pub open spec fn clause_text(alias: Seq<char>, c: Condition, n: nat) -> Seq<char> {
    "("@ + alias + "."@ + snake_of(c.field@) + " "@ + op_symbol(c.operator) + " "@ + (
    if consumes_param(c) {
        placeholder_text(c.operator, n)
    } else {
        "NULL"@
    }) + ")"@
}

/// The values of the conditions that consume a placeholder, in order: the
/// compiled statement's parameter list for one branch.
pub open spec fn branch_params(conds: Seq<Condition>) -> Seq<Seq<char>>
    decreases conds.len(),
{
    if conds.len() == 0 {
        Seq::empty()
    } else {
        (if consumes_param(conds[0]) {
            seq![conds[0].value@]
        } else {
            Seq::<Seq<char>>::empty()
        }) + branch_params(conds.drop_first())
    }
}

/// How many placeholders a branch consumes.
pub open spec fn count_params(conds: Seq<Condition>) -> nat {
    branch_params(conds).len()
}

/// The clause texts of one branch, with the running placeholder counter
/// starting at `n`.
pub open spec fn branch_clauses(alias: Seq<char>, conds: Seq<Condition>, n: nat) -> Seq<Seq<char>>
    decreases conds.len(),
{
    if conds.len() == 0 {
        Seq::empty()
    } else {
        seq![clause_text(alias, conds[0], n)] + branch_clauses(
            alias,
            conds.drop_first(),
            if consumes_param(conds[0]) {
                n + 1
            } else {
                n
            },
        )
    }
}

/// A branch's clauses joined by its connective; a group of two or more is
/// parenthesized, a single clause already carries its own parentheses.
pub open spec fn group_text(clauses: Seq<Seq<char>>, sep: Seq<char>) -> Seq<char> {
    if clauses.len() == 1 {
        clauses[0]
    } else {
        "("@ + join_with(clauses, sep) + ")"@
    }
}

/// The full WHERE-clause body for non-empty input: the AND group, the OR
/// group, or both joined by a top-level AND.
pub open spec fn where_text(alias: Seq<char>, ac: Seq<Condition>, oc: Seq<Condition>, n0: nat) -> Seq<
    char,
> {
    let a = branch_clauses(alias, ac, n0);
    let o = branch_clauses(alias, oc, n0 + count_params(ac));
    if a.len() > 0 && o.len() > 0 {
        group_text(a, " AND "@) + " AND "@ + group_text(o, " OR "@)
    } else if a.len() > 0 {
        group_text(a, " AND "@)
    } else if o.len() > 0 {
        group_text(o, " OR "@)
    } else {
        Seq::empty()
    }
}

/// Joins one branch's clause texts, parenthesizing groups of two or more.
fn join_group(clauses: &Vec<String>, sep: &str) -> (r: String)
    requires
        clauses@.len() > 0,
    ensures
        r@ == group_text(str_views(clauses@), sep@),
{
    if clauses.len() == 1 {
        proof {
            assert(str_views(clauses@)[0] == clauses@[0]@);
        }
        clauses[0].clone()
    } else {
        let mut r = String::new();
        r.append("(");
        let joined = join_strings(clauses, sep);
        r.append(joined.as_str());
        r.append(")");
        proof {
            assert(r@ =~= group_text(str_views(clauses@), sep@));
        }
        r
    }
}

/// Processing one more condition appends one clause, appends its value to
/// the parameter list when it binds one, and advances the counter
/// accordingly.
pub proof fn lemma_branch_snoc(alias: Seq<char>, conds: Seq<Condition>, i: int, n: nat)
    requires
        0 <= i < conds.len(),
    ensures
        branch_clauses(alias, conds.take(i + 1), n) == branch_clauses(alias, conds.take(i), n).push(
            clause_text(alias, conds[i], (n + count_params(conds.take(i))) as nat),
        ),
        branch_params(conds.take(i + 1)) == branch_params(conds.take(i)) + (if consumes_param(
            conds[i],
        ) {
            seq![conds[i].value@]
        } else {
            Seq::<Seq<char>>::empty()
        }),
    decreases i,
{
    if i == 0 {
        let c0 = conds[0];
        let n1: nat = if consumes_param(c0) {
            n + 1
        } else {
            n
        };
        assert(conds.take(0) =~= Seq::<Condition>::empty());
        assert(conds.take(1).drop_first() =~= Seq::<Condition>::empty());
        assert(conds.take(1)[0] == c0);
        assert(branch_clauses(alias, Seq::<Condition>::empty(), n1) =~= Seq::<Seq<char>>::empty());
        assert(branch_params(Seq::<Condition>::empty()) =~= Seq::<Seq<char>>::empty());
        assert(branch_clauses(alias, conds.take(1), n) == seq![clause_text(alias, c0, n)]
            + branch_clauses(alias, conds.take(1).drop_first(), n1));
        assert(branch_clauses(alias, conds.take(1), n) =~= branch_clauses(
            alias,
            conds.take(0),
            n,
        ).push(clause_text(alias, conds[0], n)));
        assert(branch_params(conds.take(1)) == (if consumes_param(c0) {
            seq![c0.value@]
        } else {
            Seq::<Seq<char>>::empty()
        }) + branch_params(conds.take(1).drop_first()));
        assert(branch_params(conds.take(1)) =~= branch_params(conds.take(0)) + (if consumes_param(
            conds[0],
        ) {
            seq![conds[0].value@]
        } else {
            Seq::<Seq<char>>::empty()
        }));
    } else {
        let rest = conds.drop_first();
        let n1: nat = if consumes_param(conds[0]) {
            n + 1
        } else {
            n
        };
        lemma_branch_snoc(alias, rest, i - 1, n1);
        assert(conds.take(i + 1).drop_first() =~= rest.take(i));
        assert(conds.take(i).drop_first() =~= rest.take(i - 1));
        assert(conds.take(i + 1)[0] == conds[0]);
        assert(conds.take(i)[0] == conds[0]);
        assert(rest[i - 1] == conds[i]);
        // Unfold the head step on both prefixes.
        assert(branch_clauses(alias, conds.take(i + 1), n) == seq![
            clause_text(alias, conds[0], n),
        ] + branch_clauses(alias, rest.take(i), n1));
        assert(branch_clauses(alias, conds.take(i), n) == seq![clause_text(alias, conds[0], n)]
            + branch_clauses(alias, rest.take(i - 1), n1));
        assert(branch_params(conds.take(i + 1)) == (if consumes_param(conds[0]) {
            seq![conds[0].value@]
        } else {
            Seq::<Seq<char>>::empty()
        }) + branch_params(rest.take(i)));
        assert(branch_params(conds.take(i)) == (if consumes_param(conds[0]) {
            seq![conds[0].value@]
        } else {
            Seq::<Seq<char>>::empty()
        }) + branch_params(rest.take(i - 1)));
        assert(count_params(conds.take(i)) == (if consumes_param(conds[0]) {
            1nat
        } else {
            0nat
        }) + count_params(rest.take(i - 1)));
        assert(branch_clauses(alias, conds.take(i + 1), n) =~= branch_clauses(
            alias,
            conds.take(i),
            n,
        ).push(clause_text(alias, conds[i], (n + count_params(conds.take(i))) as nat)));
        assert(branch_params(conds.take(i + 1)) =~= branch_params(conds.take(i)) + (
        if consumes_param(conds[i]) {
            seq![conds[i].value@]
        } else {
            Seq::<Seq<char>>::empty()
        }));
    }
}

/// The compiled SQL text is blind to the literal values: two branches that
/// agree on fields, operators and null flags compile to identical clause
/// text, whatever their values.  Values reach the output only through the
/// parameter list.
pub proof fn lemma_sql_value_blind(
    alias: Seq<char>,
    c1: Seq<Condition>,
    c2: Seq<Condition>,
    n: nat,
)
    requires
        c1.len() == c2.len(),
        forall|i: int|
            0 <= i < c1.len() ==> (#[trigger] c1[i]).field@ == (#[trigger] c2[i]).field@
                && c1[i].operator == c2[i].operator && (cond_is_null(c1[i]) <==> cond_is_null(
                c2[i],
            )),
    ensures
        branch_clauses(alias, c1, n) == branch_clauses(alias, c2, n),
    decreases c1.len(),
{
    if c1.len() > 0 {
        assert(consumes_param(c1[0]) == consumes_param(c2[0]));
        assert(clause_text(alias, c1[0], n) == clause_text(alias, c2[0], n));
        assert forall|i: int| 0 <= i < c1.drop_first().len() implies (#[trigger] c1.drop_first()[i]).field@
            == (#[trigger] c2.drop_first()[i]).field@ && c1.drop_first()[i].operator
            == c2.drop_first()[i].operator && (cond_is_null(c1.drop_first()[i]) <==> cond_is_null(
            c2.drop_first()[i],
        )) by {
            assert(c1.drop_first()[i] == c1[i + 1]);
            assert(c2.drop_first()[i] == c2[i + 1]);
        }
        lemma_sql_value_blind(
            alias,
            c1.drop_first(),
            c2.drop_first(),
            if consumes_param(c1[0]) {
                n + 1
            } else {
                n
            },
        );
    }
}

/// Placeholder numbering: the clause for condition `i` uses the number
/// `n0` plus the count of binding conditions before it; numbering starts at
/// `n0` and increases by exactly one per binding condition, skipping only
/// the null `is`/`is not` cases.
pub proof fn lemma_placeholder_numbering(alias: Seq<char>, conds: Seq<Condition>, n0: nat, i: int)
    requires
        0 <= i < conds.len(),
    ensures
        branch_clauses(alias, conds, n0).len() == conds.len(),
        branch_clauses(alias, conds, n0)[i] == clause_text(
            alias,
            conds[i],
            (n0 + count_params(conds.take(i))) as nat,
        ),
        count_params(conds.take(i + 1)) == count_params(conds.take(i)) + (if consumes_param(
            conds[i],
        ) {
            1nat
        } else {
            0nat
        }),
    decreases conds.len(),
{
    lemma_branch_len(alias, conds, n0);
    lemma_branch_snoc(alias, conds, i, n0);
    if i == 0 {
        assert(conds.take(0) =~= Seq::<Condition>::empty());
        assert(branch_clauses(alias, conds, n0)[0] == clause_text(alias, conds[0], n0));
    } else {
        let rest = conds.drop_first();
        let n1: nat = if consumes_param(conds[0]) {
            n0 + 1
        } else {
            n0
        };
        lemma_placeholder_numbering(alias, rest, n1, i - 1);
        assert(rest[i - 1] == conds[i]);
        assert(conds.take(i).drop_first() =~= rest.take(i - 1));
        assert(count_params(conds.take(i)) == (if consumes_param(conds[0]) {
            1nat
        } else {
            0nat
        }) + count_params(rest.take(i - 1)));
        assert(branch_clauses(alias, conds, n0)[i] == branch_clauses(alias, rest, n1)[i - 1]);
    }
}

/// One clause per condition.
pub proof fn lemma_branch_len(alias: Seq<char>, conds: Seq<Condition>, n: nat)
    ensures
        branch_clauses(alias, conds, n).len() == conds.len(),
        branch_params(conds).len() <= conds.len(),
    decreases conds.len(),
{
    if conds.len() > 0 {
        lemma_branch_len(
            alias,
            conds.drop_first(),
            if consumes_param(conds[0]) {
                n + 1
            } else {
                n
            },
        );
    }
}

/// The conditions of an optional branch; an absent branch contributes
/// nothing.
pub open spec fn opt_conds(o: Option<Vec<Condition>>) -> Seq<Condition> {
    match o {
        Some(v) => v@,
        None => Seq::empty(),
    }
}

/// Compiles filter expressions into parameterized WHERE clauses, keeping
/// the running placeholder counter and the ordered parameter list.
#[derive(Debug)]
pub struct WhereBuilder {
    pub params: Vec<String>,
    pub counter: usize,
    pub model: String,
}

impl WhereBuilder {
    /// A fresh builder for the given table alias.  The counter starts one
    /// past the caller's existing positional parameters, so the first bound
    /// condition uses placeholder number `initial_count + 1`.
    pub fn new(model: String, initial_count: Option<usize>) -> (r: WhereBuilder)
        requires
            match initial_count {
                Some(n) => n < usize::MAX,
                None => true,
            },
        ensures
            r.params@.len() == 0,
            r.counter as int == 1 + match initial_count {
                Some(n) => n as int,
                None => 0,
            },
            r.model == model,
    {
        WhereBuilder {
            params: Vec::new(),
            counter: match initial_count {
                Some(n) => n + 1,
                None => 1,
            },
            model,
        }
    }

    /// Compiles one branch: appends its clause texts to the result, its
    /// bound values to `self.params`, and advances the counter by the
    /// number of bound conditions.
    fn branch_into(&mut self, conds: &Vec<Condition>) -> (cls: Vec<String>)
        requires
            old(self).counter + conds@.len() <= usize::MAX,
        ensures
            final(self).model == old(self).model,
            final(self).counter == old(self).counter + count_params(conds@),
            str_views(final(self).params@) == str_views(old(self).params@) + branch_params(conds@),
            str_views(cls@) == branch_clauses(old(self).model@, conds@, old(self).counter as nat),
    {
        let ghost alias = self.model@;
        let ghost n0 = self.counter as nat;
        let ghost p0 = self.params@;
        let mut cls: Vec<String> = Vec::new();
        proof {
            assert(conds@.take(0) =~= Seq::<Condition>::empty());
            assert(str_views(cls@) =~= branch_clauses(alias, conds@.take(0), n0));
            assert(str_views(self.params@) =~= str_views(p0) + branch_params(conds@.take(0)));
        }
        let mut i: usize = 0;
        while i < conds.len()
            invariant
                i <= conds@.len(),
                self.model@ == alias,
                self.model == old(self).model,
                n0 + conds@.len() <= usize::MAX,
                self.counter as nat == n0 + count_params(conds@.take(i as int)),
                count_params(conds@.take(i as int)) <= i,
                str_views(self.params@) == str_views(p0) + branch_params(conds@.take(i as int)),
                self.params@.len() == p0.len() + count_params(conds@.take(i as int)),
                str_views(cls@) == branch_clauses(alias, conds@.take(i as int), n0),
                cls@.len() == i,
            decreases conds@.len() - i,
        {
            let ghost taken = conds@.take(i as int);
            let c = &conds[i];
            let snake = to_snake_case(c.field.as_str());
            let mut cl = String::new();
            cl.append("(");
            cl.append(self.model.as_str());
            cl.append(".");
            cl.append(snake.as_str());
            cl.append(" ");
            cl.append(c.operator.sql_symbol());
            cl.append(" ");
            let null_is = matches!(c.operator, FilterOperators::Is | FilterOperators::IsNot)
                && str_eq(c.value.as_str(), "null");
            proof {
                lemma_branch_snoc(alias, conds@, i as int, n0);
                lemma_branch_len(alias, conds@.take(i as int + 1), n0);
                assert(branch_params(conds@.take(i as int + 1)).len() <= i + 1);
            }
            if null_is {
                cl.append("NULL");
                cl.append(")");
                proof {
                    assert(!consumes_param(conds@[i as int]));
                    assert(cl@ =~= clause_text(alias, conds@[i as int], self.counter as nat));
                    let w = branch_clauses(alias, conds@.take(i as int + 1), n0);
                    assert(w.take(i as int) =~= branch_clauses(alias, conds@.take(i as int), n0));
                    assert(w[i as int] == cl@);
                    lemma_str_views_push(cls@, cl, w, i as int);
                    assert(branch_params(conds@.take(i as int + 1)) =~= branch_params(
                        conds@.take(i as int),
                    ));
                }
                cls.push(cl);
            } else {
                let num = usize_to_dec(self.counter);
                match c.operator {
                    FilterOperators::In => {
                        cl.append("ANY($");
                        cl.append(num.as_str());
                        cl.append(")");
                    },
                    FilterOperators::NotIn => {
                        cl.append("ALL($");
                        cl.append(num.as_str());
                        cl.append(")");
                    },
                    _ => {
                        cl.append("$");
                        cl.append(num.as_str());
                    },
                }
                cl.append(")");
                proof {
                    assert(consumes_param(conds@[i as int]));
                    assert(cl@ =~= clause_text(alias, conds@[i as int], self.counter as nat));
                    let w = branch_clauses(alias, conds@.take(i as int + 1), n0);
                    assert(w.take(i as int) =~= branch_clauses(alias, conds@.take(i as int), n0));
                    assert(w[i as int] == cl@);
                    lemma_str_views_push(cls@, cl, w, i as int);
                }
                cls.push(cl);
                let x = c.value.clone();
                proof {
                    let w2 = str_views(p0) + branch_params(conds@.take(i as int + 1));
                    assert(str_views(self.params@).len() == self.params@.len());
                    assert(w2.take(w2.len() - 1) =~= str_views(p0) + branch_params(
                        conds@.take(i as int),
                    ));
                    assert(w2[w2.len() - 1] == conds@[i as int].value@);
                    lemma_str_views_push(self.params@, x, w2, w2.len() - 1);
                }
                self.params.push(x);
                self.counter = self.counter + 1;
            }
            i = i + 1;
        }
        proof {
            assert(conds@.take(conds@.len() as int) =~= conds@);
        }
        cls
    }

    /// Compiles the expression.  No expression selects everything
    /// (`TRUE`); an expression whose two branches are both empty selects
    /// nothing (`FALSE`); otherwise the grouped clause text is returned
    /// together with, in order, exactly the bound values.
    pub fn build_where_clause(&mut self, value: Option<Conditions>) -> (r: (String, Vec<String>))
        requires
            old(self).counter + (match value {
                Some(v) => opt_conds(v.and).len() + opt_conds(v.or).len(),
                None => 0,
            }) <= usize::MAX,
        ensures
            value is None ==> r.0@ == "TRUE"@ && r.1@.len() == 0 && *final(self) == *old(self),
            value matches Some(v) ==> ({
                let ac = opt_conds(v.and);
                let oc = opt_conds(v.or);
                &&& final(self).model == old(self).model
                &&& final(self).counter == old(self).counter + count_params(ac) + count_params(oc)
                &&& str_views(final(self).params@) == str_views(old(self).params@) + branch_params(
                    ac,
                ) + branch_params(oc)
                &&& (ac.len() == 0 && oc.len() == 0 ==> r.0@ == "FALSE"@ && r.1@.len() == 0)
                &&& (ac.len() > 0 || oc.len() > 0 ==> r.0@ == where_text(
                    old(self).model@,
                    ac,
                    oc,
                    old(self).counter as nat,
                ) && r.1@ == final(self).params@)
            }),
    {
        match value {
            Option::None => (String::from_str("TRUE"), Vec::new()),
            Option::Some(v) => {
                let ghost alias = self.model@;
                let ghost n0 = self.counter as nat;
                let ghost p0 = self.params@;
                let ghost ac = opt_conds(v.and);
                let ghost oc = opt_conds(v.or);
                let and_cls = match &v.and {
                    Option::Some(a) => self.branch_into(a),
                    Option::None => {
                        proof {
                            assert(branch_clauses(alias, ac, n0) =~= Seq::<Seq<char>>::empty());
                            assert(branch_params(ac) =~= Seq::<Seq<char>>::empty());
                            assert(str_views(self.params@) =~= str_views(p0) + branch_params(ac));
                            assert(str_views(Seq::<String>::empty()) =~= Seq::<Seq<char>>::empty());
                        }
                        Vec::new()
                    },
                };
                proof {
                    lemma_branch_len(alias, ac, n0);
                    assert(str_views(and_cls@).len() == and_cls@.len());
                }
                let or_cls = match &v.or {
                    Option::Some(o) => self.branch_into(o),
                    Option::None => {
                        proof {
                            assert(branch_clauses(alias, oc, n0 + count_params(ac)) =~= Seq::<
                                Seq<char>,
                            >::empty());
                            assert(branch_params(oc) =~= Seq::<Seq<char>>::empty());
                            assert(str_views(Seq::<String>::empty()) =~= Seq::<Seq<char>>::empty());
                        }
                        Vec::new()
                    },
                };
                proof {
                    lemma_branch_len(alias, oc, n0 + count_params(ac));
                    assert(str_views(or_cls@).len() == or_cls@.len());
                    assert(str_views(self.params@) =~= str_views(p0) + branch_params(ac)
                        + branch_params(oc));
                }
                if and_cls.len() == 0 && or_cls.len() == 0 {
                    (String::from_str("FALSE"), Vec::new())
                } else {
                    let mut sql = String::new();
                    if and_cls.len() > 0 {
                        let g = join_group(&and_cls, " AND ");
                        sql.append(g.as_str());
                    }
                    if and_cls.len() > 0 && or_cls.len() > 0 {
                        sql.append(" AND ");
                    }
                    if or_cls.len() > 0 {
                        let g = join_group(&or_cls, " OR ");
                        sql.append(g.as_str());
                    }
                    proof {
                        assert(sql@ =~= where_text(alias, ac, oc, n0));
                    }
                    let ps = clone_strings(&self.params);
                    (sql, ps)
                }
            },
        }
    }
}

} // verus!
