//! Listing-request parameters and the SQL text around the compiled filter:
//! sort clauses, select-column lists, and the listing statements.

use vstd::prelude::*;

use crate::text::{
    contains_char, join_strings, join_with, lemma_str_views_push, lower_seq, str_eq, str_views,
};

verus! {

/// The sort directions a listing accepts.
#[derive(Debug, Clone, Copy, PartialEq, Eq, Structural)]
pub enum SortType {
    Asc,
    Desc,
}

/// The direction a request label denotes; anything unknown sorts ascending.
pub open spec fn sort_type_of(s: Seq<char>) -> SortType {
    if s == "desc"@ {
        SortType::Desc
    } else {
        SortType::Asc
    }
}

/// The SQL keyword for an optional direction; absent means ascending.
pub open spec fn sort_label(st: Option<SortType>) -> Seq<char> {
    match st {
        Some(SortType::Desc) => "Desc"@,
        _ => "Asc"@,
    }
}

impl SortType {
    /// Parses a direction label; anything unknown sorts ascending.
    pub fn from(s: &str) -> (r: SortType)
        ensures
            r == sort_type_of(s@),
    {
        if str_eq(s, "desc") {
            SortType::Desc
        } else {
            SortType::Asc
        }
    }

    /// The SQL keyword for this direction.
    pub fn label(&self) -> (r: &'static str)
        ensures
            r@ == sort_label(Some(*self)),
    {
        match self {
            SortType::Asc => "Asc",
            SortType::Desc => "Desc",
        }
    }
}

/// The parameters of a listing request.
#[derive(Debug, Clone)]
pub struct QueryParams {
    pub page: Option<i64>,
    pub limit: Option<i64>,
    pub fields: Option<String>,
    pub filters: Option<String>,
    pub sort_field: Option<String>,
    pub sort_type: Option<SortType>,
    pub relations: Option<String>,
    pub path: String,
}

pub fn default_path() -> (r: String)
    ensures
        r@ == Seq::<char>::empty(),
{
    String::new()
}

pub fn default_page() -> (r: Option<i64>)
    ensures
        r == Some(0i64),
{
    Some(0)
}

pub fn default_limit() -> (r: Option<i64>)
    ensures
        r == Some(30i64),
{
    Some(30)
}

pub fn default_none() -> (r: Option<String>)
    ensures
        r is None,
{
    None
}

pub fn default_sort_type() -> (r: Option<SortType>)
    ensures
        r == Some(SortType::Asc),
{
    Some(SortType::Asc)
}

pub fn default_public() -> (r: bool)
    ensures
        r == false,
{
    false
}

/// The ORDER BY clause of a listing: empty without a sort field; a field
/// already qualified with a dot is used as-is, anything else is qualified
/// with the lowercased table alias.
pub open spec fn query_sort_spec(
    sf: Option<Seq<char>>,
    st: Option<SortType>,
    model: Seq<char>,
) -> Seq<char> {
    match sf {
        None => Seq::empty(),
        Some(f) => if f.contains('.') {
            "ORDER BY "@ + f + " "@ + sort_label(st)
        } else {
            "ORDER BY "@ + lower_seq(model) + "."@ + f + " "@ + sort_label(st)
        },
    }
}

impl QueryParams {
    /// The ORDER BY clause this request asks for, against the given table
    /// alias.
    pub fn to_query_sort(&self, model: &str) -> (r: String)
        ensures
            r@ == query_sort_spec(
                match self.sort_field {
                    Some(f) => Some(f@),
                    None => None,
                },
                self.sort_type,
                model@,
            ),
    {
        match &self.sort_field {
            Option::None => String::new(),
            Option::Some(f) => {
                let direction = match self.sort_type {
                    Option::Some(st) => st.label(),
                    Option::None => "Asc",
                };
                let mut r = String::new();
                r.append("ORDER BY ");
                if contains_char(f.as_str(), '.') {
                    r.append(f.as_str());
                } else {
                    let low = crate::text::ascii_lower(model);
                    r.append(low.as_str());
                    r.append(".");
                    r.append(f.as_str());
                }
                r.append(" ");
                r.append(direction);
                proof {
                    assert(r@ =~= query_sort_spec(
                        Some(f@),
                        self.sort_type,
                        model@,
                    ));
                }
                r
            },
        }
    }
}

/// Each selected column, qualified with the table alias unless it already
/// carries one.
pub open spec fn select_items(model: Seq<char>, fs: Seq<Seq<char>>) -> Seq<Seq<char>> {
    fs.map_values(
        |f: Seq<char>|
            if f.contains('.') {
                f
            } else {
                model + "."@ + f
            },
    )
}

/// The comma-joined select list for the given table alias.
pub fn get_select_string(model: &str, fields: &Vec<String>) -> (r: String)
    ensures
        r@ == join_with(select_items(model@, str_views(fields@)), ","@),
{
    let ghost w = select_items(model@, str_views(fields@));
    let mut parts: Vec<String> = Vec::new();
    proof {
        assert(w.len() == fields@.len());
        assert(str_views(parts@) =~= w.take(0));
    }
    let mut i: usize = 0;
    while i < fields.len()
        invariant
            i <= fields@.len(),
            w == select_items(model@, str_views(fields@)),
            w.len() == fields@.len(),
            str_views(parts@) == w.take(i as int),
            parts@.len() == i,
        decreases fields@.len() - i,
    {
        let f = &fields[i];
        let x: String = if contains_char(f.as_str(), '.') {
            f.clone()
        } else {
            let mut q = String::new();
            q.append(model);
            q.append(".");
            q.append(f.as_str());
            q
        };
        proof {
            assert(str_views(fields@)[i as int] == fields@[i as int]@);
            assert(w[i as int] == (if fields@[i as int]@.contains('.') {
                fields@[i as int]@
            } else {
                model@ + "."@ + fields@[i as int]@
            }));
            lemma_str_views_push(parts@, x, w, i as int);
        }
        parts.push(x);
        i = i + 1;
    }
    proof {
        assert(w.take(w.len() as int) =~= w);
    }
    join_strings(&parts, ",")
}

/// The selected columns joined as given, comma-and-space separated.
pub fn format_hashset_select_string(fields: &Vec<String>) -> (r: String)
    ensures
        r@ == join_with(str_views(fields@), ", "@),
{
    join_strings(fields, ", ")
}

/// The files listing's sort clause: folders always sort first, then the
/// requested ordering, if any.
pub open spec fn files_sort_spec(qs: Seq<char>) -> Seq<char> {
    if qs.len() == 0 {
        "ORDER BY type = 'folder' desc"@
    } else if qs.len() >= 8 && qs.take(8) == "ORDER BY"@ {
        "ORDER BY type = 'folder' desc, "@ + qs.skip(8)
    } else {
        qs
    }
}

/// Rewrites a listing's sort clause so folders sort first.
pub fn files_sort_clause(query_sort: &str) -> (r: String)
    ensures
        r@ == files_sort_spec(query_sort@),
{
    let n = query_sort.unicode_len();
    if n == 0 {
        let mut r = String::new();
        r.append("ORDER BY type = 'folder' desc");
        proof {
            assert(r@ =~= files_sort_spec(query_sort@));
        }
        r
    } else if n >= 8 {
        let head = query_sort.substring_char(0, 8);
        if str_eq(head, "ORDER BY") {
            let tail = query_sort.substring_char(8, n);
            let mut r = String::new();
            r.append("ORDER BY type = 'folder' desc, ");
            r.append(tail);
            proof {
                assert(query_sort@.subrange(8, n as int) =~= query_sort@.skip(8));
                assert(r@ =~= files_sort_spec(query_sort@));
            }
            r
        } else {
            proof {
                assert(query_sort@.subrange(0, 8) =~= query_sort@.take(8));
            }
            String::from_str(query_sort)
        }
    } else {
        proof {
            assert(query_sort@.len() < 8);
        }
        String::from_str(query_sort)
    }
}

/// The files listing statement: scoped to the path and owner, restricted by
/// the compiled filter, sorted, and paged.
pub fn files_list_stmt(where_clause: &str, sort: &str) -> (r: String)
    ensures
        r@ == "SELECT id, created_at, title, type, size, is_public, path FROM files WHERE path = $1 AND owner_id = $2 AND "@
            + where_clause@ + " "@ + sort@ + " LIMIT 25 OFFSET 0;"@,
{
    let mut r = String::new();
    r.append(
        "SELECT id, created_at, title, type, size, is_public, path FROM files WHERE path = $1 AND owner_id = $2 AND ",
    );
    r.append(where_clause);
    r.append(" ");
    r.append(sort);
    r.append(" LIMIT 25 OFFSET 0;");
    proof {
        assert(r@ =~= "SELECT id, created_at, title, type, size, is_public, path FROM files WHERE path = $1 AND owner_id = $2 AND "@
            + where_clause@ + " "@ + sort@ + " LIMIT 25 OFFSET 0;"@);
    }
    r
}

/// The buckets listing statement: scoped to the owner, restricted by the
/// compiled filter, sorted, and paged.
pub fn buckets_list_stmt(where_clause: &str, sort: &str) -> (r: String)
    ensures
        r@ == "SELECT id, title FROM buckets WHERE owner_id = $1 AND "@ + where_clause@ + " "@
            + sort@ + " LIMIT 25 OFFSET 0;"@,
{
    let mut r = String::new();
    r.append("SELECT id, title FROM buckets WHERE owner_id = $1 AND ");
    r.append(where_clause);
    r.append(" ");
    r.append(sort);
    r.append(" LIMIT 25 OFFSET 0;");
    proof {
        assert(r@ =~= "SELECT id, title FROM buckets WHERE owner_id = $1 AND "@ + where_clause@
            + " "@ + sort@ + " LIMIT 25 OFFSET 0;"@);
    }
    r
}

} // verus!
