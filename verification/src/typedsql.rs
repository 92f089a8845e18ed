//! Typed SQL code generation: what the generated Rust code declares for
//! each table of a database schema. A table becomes a struct with one field
//! per column, a getter per column and a conversion from a database record.

use vstd::prelude::*;
use crate::text::{chars_of, push_char};

verus! {

/// `s` with every occurrence of `pat`, from left to right and without
/// overlaps, replaced by `with` (`str::replace`); an empty pattern occurs
/// before every character and at the end.
pub open spec fn replaced(s: Seq<char>, pat: Seq<char>, with: Seq<char>) -> Seq<char>
    decreases s.len(),
{
    if pat.len() == 0 {
        if s.len() == 0 {
            with
        } else {
            with + seq![s[0]] + replaced(s.drop_first(), pat, with)
        }
    } else if s.len() < pat.len() {
        s
    } else if s.subrange(0, pat.len() as int) == pat {
        with + replaced(s.subrange(pat.len() as int, s.len() as int), pat, with)
    } else {
        seq![s[0]] + replaced(s.drop_first(), pat, with)
    }
}

/// `s` without the characters `"` and `.`.
pub open spec fn without_quotes_and_dots(s: Seq<char>) -> Seq<char> {
    s.filter(|c: char| c != '"' && c != '.')
}

/// The name of the struct generated for a table: the table's name without
/// the `public.` schema prefixes, quotes and dots.
pub open spec fn unquoted_name(name: Seq<char>) -> Seq<char> {
    without_quotes_and_dots(replaced(name, "public."@, Seq::empty()))
}

fn matches_at(s: &Vec<char>, i: usize, pat: &Vec<char>) -> (r: bool)
    requires
        i + pat.len() <= s.len(),
    ensures
        r == (s@.subrange(i as int, i + pat.len()) == pat@),
{
    let mut k: usize = 0;
    while k < pat.len()
        invariant
            i + pat.len() <= s.len(),
            k <= pat.len(),
            forall|j: int| 0 <= j < k ==> s@[i + j] == pat@[j],
        decreases pat.len() - k,
    {
        if s[i + k] != pat[k] {
            assert(s@.subrange(i as int, i + pat.len())[k as int] != pat@[k as int]);
            return false;
        }
        k += 1;
    }
    assert(s@.subrange(i as int, i + pat.len()) =~= pat@);
    true
}

proof fn lemma_replaced_step(s: Seq<char>, pat: Seq<char>, with: Seq<char>, i: int)
    requires
        pat.len() > 0,
        0 <= i < s.len(),
    ensures
        i + pat.len() <= s.len() && s.subrange(i, i + pat.len()) == pat ==>
            replaced(s.subrange(i, s.len() as int), pat, with)
                == with + replaced(s.subrange(i + pat.len(), s.len() as int), pat, with),
        !(i + pat.len() <= s.len() && s.subrange(i, i + pat.len()) == pat) ==>
            replaced(s.subrange(i, s.len() as int), pat, with)
                == seq![s[i]] + replaced(s.subrange(i + 1, s.len() as int), pat, with),
{
    let t = s.subrange(i, s.len() as int);
    assert(t.drop_first() =~= s.subrange(i + 1, s.len() as int));
    if i + pat.len() <= s.len() {
        assert(t.subrange(0, pat.len() as int) =~= s.subrange(i, i + pat.len()));
        assert(t.subrange(pat.len() as int, t.len() as int) =~= s.subrange(i + pat.len(), s.len() as int));
    } else {
        if t.len() >= pat.len() {
            assert(false);
        }
        assert(t.len() < pat.len());
        if i + 1 < s.len() {
            assert(s.subrange(i + 1, s.len() as int).len() < pat.len());
        }
        assert(replaced(s.subrange(i + 1, s.len() as int), pat, with) == s.subrange(i + 1, s.len() as int));
        assert(seq![s[i]] + s.subrange(i + 1, s.len() as int) =~= t);
    }
}

fn interleave(sc: &Vec<char>, with: &str, Ghost(pat): Ghost<Seq<char>>) -> (r: String)
    requires
        pat.len() == 0,
    ensures
        r@ == replaced(sc@, pat, with@),
{
    let mut out = String::new();
    let mut i: usize = 0;
    assert(sc@.subrange(0, sc@.len() as int) =~= sc@);
    assert(out@ + replaced(sc@, pat, with@) =~= replaced(sc@, pat, with@));
    while i < sc.len()
        invariant
            pat.len() == 0,
            i <= sc.len(),
            out@ + replaced(sc@.subrange(i as int, sc@.len() as int), pat, with@) == replaced(sc@, pat, with@),
        decreases sc.len() - i,
    {
        let ghost before = out@;
        let ghost rest = sc@.subrange(i as int, sc@.len() as int);
        assert(rest.drop_first() =~= sc@.subrange(i + 1, sc@.len() as int));
        assert(rest[0] == sc@[i as int]);
        out.append(with);
        push_char(&mut out, sc[i]);
        assert(out@ + replaced(sc@.subrange(i + 1, sc@.len() as int), pat, with@) =~= before + replaced(rest, pat, with@));
        i = i + 1;
    }
    let ghost before = out@;
    out.append(with);
    assert(sc@.subrange(i as int, sc@.len() as int) =~= Seq::<char>::empty());
    assert(out@ =~= before + replaced(Seq::<char>::empty(), pat, with@));
    out
}

/// Replaces every occurrence of `pat` in `s` by `with` (`str::replace`).
pub fn replace_all(s: &str, pat: &str, with: &str) -> (r: String)
    ensures
        r@ == replaced(s@, pat@, with@),
{
    let sc = chars_of(s);
    let pc = chars_of(pat);
    if pc.len() == 0 {
        return interleave(&sc, with, Ghost(pat@));
    }
    let mut out = String::new();
    let mut i: usize = 0;
    assert(s@.subrange(0, s@.len() as int) =~= s@);
    assert(out@ + replaced(s@, pat@, with@) =~= replaced(s@, pat@, with@));
    while i < sc.len()
        invariant
            sc@ == s@,
            pc@ == pat@,
            pat@.len() > 0,
            i <= sc.len(),
            out@ + replaced(s@.subrange(i as int, s@.len() as int), pat@, with@) == replaced(s@, pat@, with@),
        decreases sc.len() - i,
    {
        proof {
            lemma_replaced_step(s@, pat@, with@, i as int);
        }
        if pc.len() <= sc.len() - i && matches_at(&sc, i, &pc) {
            let ghost before = out@;
            out.append(with);
            assert(out@ + replaced(s@.subrange(i + pc.len(), s@.len() as int), pat@, with@) =~= before
                + replaced(s@.subrange(i as int, s@.len() as int), pat@, with@));
            i = i + pc.len();
        } else {
            let ghost before = out@;
            push_char(&mut out, sc[i]);
            assert(out@ + replaced(s@.subrange(i + 1, s@.len() as int), pat@, with@) =~= before
                + replaced(s@.subrange(i as int, s@.len() as int), pat@, with@));
            i = i + 1;
        }
    }
    proof {
        assert(s@.subrange(i as int, s@.len() as int) =~= Seq::<char>::empty());
        assert(out@ =~= out@ + replaced(Seq::<char>::empty(), pat@, with@));
    }
    out
}

/// The name of the struct generated for a table.
pub fn unquoted_table_name(name: &str) -> (r: String)
    ensures
        r@ == unquoted_name(name@),
{
    proof {
        reveal_strlit("public.");
    }
    let stripped = replace_all(name, "public.", "");
    proof {
        reveal_strlit("");
        assert(""@ =~= Seq::<char>::empty());
    }
    let chars = chars_of(stripped.as_str());
    let mut out = String::new();
    let mut i: usize = 0;
    while i < chars.len()
        invariant
            i <= chars.len(),
            out@ == without_quotes_and_dots(chars@.take(i as int)),
        decreases chars.len() - i,
    {
        let c = chars[i];
        proof {
            assert(chars@.take(i + 1) =~= chars@.take(i as int).push(c));
            chars@.take(i as int).lemma_filter_push(c, |c: char| c != '"' && c != '.');
        }
        if c != '"' && c != '.' {
            push_char(&mut out, c);
        }
        i += 1;
    }
    assert(chars@.take(chars.len() as int) =~= chars@);
    out
}

/// A column of a table: its name, the Rust types that its SQL type maps to
/// (none when the SQL type is not supported), as the text of their tokens,
/// and whether it is declared `NOT NULL`.
pub struct ColumnInfo {
    pub name: String,
    /// The owned type of the column's values.
    pub rust_type: Option<String>,
    /// The type that the column's getter returns for a present value.
    pub rust_reftype: Option<String>,
    pub not_null: bool,
}

/// A table: its name and its columns in order.
pub struct TableInfo {
    pub name: String,
    pub columns: Vec<ColumnInfo>,
}

/// How a getter reads its field.
pub enum GetterBody {
    /// `self.field.as_str()`
    AsStr,
    /// `self.field.as_deref()`
    AsDeref,
    /// `self.field.as_slice()`
    AsSlice,
    /// `self.field`
    Field,
}

/// The text of the tokens of `Option<ty>`.
pub open spec fn option_tokens(ty: Seq<char>) -> Seq<char> {
    "Option < "@ + ty + " >"@
}

/// The getter body for the text of a return type's tokens.
pub open spec fn getter_body_for(ty: Seq<char>) -> GetterBody {
    if ty == "& str"@ {
        GetterBody::AsStr
    } else if ty == "Option < & str >"@ {
        GetterBody::AsDeref
    } else if ty == "& [String]"@ {
        GetterBody::AsSlice
    } else {
        GetterBody::Field
    }
}

fn same_text(a: &str, b: &str) -> (r: bool)
    ensures
        r == (a@ == b@),
{
    let ac = chars_of(a);
    let bc = chars_of(b);
    if ac.len() != bc.len() {
        return false;
    }
    let mut i: usize = 0;
    while i < ac.len()
        invariant
            ac@ == a@,
            bc@ == b@,
            ac.len() == bc.len(),
            i <= ac.len(),
            forall|k: int| 0 <= k < i ==> ac@[k] == bc@[k],
        decreases ac.len() - i,
    {
        if ac[i] != bc[i] {
            return false;
        }
        i += 1;
    }
    assert(a@ =~= b@);
    true
}

/// The getter body for the text of a return type's tokens.
pub fn generate_getter_body(ty: &str) -> (r: GetterBody)
    ensures
        r == getter_body_for(ty@),
{
    if same_text(ty, "& str") {
        GetterBody::AsStr
    } else if same_text(ty, "Option < & str >") {
        GetterBody::AsDeref
    } else if same_text(ty, "& [String]") {
        GetterBody::AsSlice
    } else {
        GetterBody::Field
    }
}

/// What is generated for a column: the field's type and whether it is
/// wrapped in `Option`, the getter's return type and body, and the decoding
/// function of the record conversion (`decode` or `decode_opt`).
pub struct ColumnPlan {
    pub name: String,
    pub field_type: String,
    pub optional: bool,
    pub getter_type: String,
    pub getter_body: GetterBody,
    pub decode_fn: String,
}

/// `p` is what is generated for the column `c`, whose types are supported.
pub open spec fn plans_column(p: ColumnPlan, c: ColumnInfo) -> bool {
    &&& c.rust_type matches Some(t) && p.field_type@ == t@
    &&& c.rust_reftype is Some
    &&& p.name@ == c.name@
    &&& p.optional == !c.not_null
    &&& p.getter_type@ == if c.not_null { c.rust_reftype->0@ } else { option_tokens(c.rust_reftype->0@) }
    &&& p.getter_body == getter_body_for(p.getter_type@)
    &&& p.decode_fn@ == if c.not_null { "decode"@ } else { "decode_opt"@ }
}

/// A column whose SQL type has no Rust type.
pub open spec fn unsupported(c: ColumnInfo) -> bool {
    c.rust_type is None || c.rust_reftype is None
}

/// Why no code could be generated.
pub enum CodegenError {
    /// A column's SQL type is not supported.
    UnsupportedDataType,
}

/// What is generated for one column.
pub fn column_plan(column: &ColumnInfo) -> (r: Result<ColumnPlan, CodegenError>)
    ensures
        match r {
            Ok(p) => plans_column(p, *column),
            Err(e) => e == CodegenError::UnsupportedDataType && unsupported(*column),
        },
{
    let field_type = match &column.rust_type {
        Some(t) => t.clone(),
        None => return Err(CodegenError::UnsupportedDataType),
    };
    let reftype = match &column.rust_reftype {
        Some(t) => t.clone(),
        None => return Err(CodegenError::UnsupportedDataType),
    };
    let getter_type = if column.not_null {
        reftype
    } else {
        let mut t = String::from_str("Option < ");
        t.append(reftype.as_str());
        t.append(" >");
        t
    };
    let getter_body = generate_getter_body(getter_type.as_str());
    let decode_fn = if column.not_null { String::from_str("decode") } else { String::from_str("decode_opt") };
    Ok(ColumnPlan {
        name: column.name.clone(),
        field_type,
        optional: !column.not_null,
        getter_type,
        getter_body,
        decode_fn,
    })
}

/// What is generated for a table: the struct's name and the plan of each
/// column, in the columns' order.
pub struct TablePlan {
    pub struct_name: String,
    pub columns: Vec<ColumnPlan>,
}

/// What is generated for a table; a column whose SQL type is not supported
/// stops the generation.
pub fn table_plan(table: &TableInfo) -> (r: Result<TablePlan, CodegenError>)
    ensures
        match r {
            Ok(p) => p.struct_name@ == unquoted_name(table.name@) && p.columns@.len() == table.columns@.len()
                && forall|i: int| 0 <= i < p.columns@.len() ==> plans_column(#[trigger] p.columns@[i], table.columns@[i]),
            Err(e) => e == CodegenError::UnsupportedDataType
                && exists|i: int| 0 <= i < table.columns@.len() && unsupported(#[trigger] table.columns@[i]),
        },
{
    let struct_name = unquoted_table_name(table.name.as_str());
    let mut columns: Vec<ColumnPlan> = Vec::new();
    let mut i: usize = 0;
    while i < table.columns.len()
        invariant
            i <= table.columns.len(),
            columns@.len() == i,
            forall|k: int| 0 <= k < i ==> plans_column(#[trigger] columns@[k], table.columns@[k]),
        decreases table.columns.len() - i,
    {
        match column_plan(&table.columns[i]) {
            Ok(p) => {
                columns.push(p);
            }
            Err(e) => {
                assert(unsupported(table.columns@[i as int]));
                return Err(e);
            }
        }
        i += 1;
    }
    Ok(TablePlan { struct_name, columns })
}

/// The name of the file generated for a schema.
pub fn schema_file_name(schema: &str) -> (r: String)
    ensures
        r@ == schema@ + ".rs"@,
{
    let mut name = String::from_str(schema);
    name.append(".rs");
    name
}


/// The struct name generated for any table holds neither quotes nor dots.
pub proof fn lemma_unquoted_name_has_no_quotes_or_dots(name: Seq<char>)
    ensures
        forall|i: int| 0 <= i < unquoted_name(name).len() ==> #[trigger] unquoted_name(name)[i] != '"'
            && unquoted_name(name)[i] != '.',
{
    let s = replaced(name, "public."@, Seq::empty());
    let pred = |c: char| c != '"' && c != '.';
    assert forall|i: int| 0 <= i < unquoted_name(name).len() implies #[trigger] unquoted_name(name)[i] != '"'
        && unquoted_name(name)[i] != '.' by {
        broadcast use vstd::seq_lib::group_filter_ensures;
    }
}

} // verus!
