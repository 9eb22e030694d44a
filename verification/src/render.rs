//! Rendering of an inferred type as record declarations.
//!
//! Identifiers are derived from the path of field names: each key is
//! sanitized into a lower-case, underscore-delimited identifier, and a
//! nested record's identifier joins its parent's with a double
//! underscore.  Declarations are emitted in pre-order: a record first,
//! then the records of its fields in key order, then those of its array
//! element type.

use vstd::prelude::*;
use vstd::string::StrSliceExecFns;
use vstd::string::StringExecFns;

use crate::model::{EntryModel, TypeModel};
use crate::types::{entries_model, lemma_entries_model, union_model, ObjectType, UnionType};

verus! {

/// The views of a sequence of rendered strings.
pub open spec fn strings_model(s: Seq<String>) -> Seq<Seq<char>> {
    s.map_values(|x: String| x@)
}

/// A separator character that sanitization replaces with an underscore.
pub open spec fn is_sep(c: char) -> bool {
    c == '-' || c == '/' || c == '.'
}

/// An upper-case ASCII letter.
pub open spec fn is_upper(c: char) -> bool {
    'A' <= c && c <= 'Z'
}

/// A lower-case ASCII letter or ASCII digit: the characters that end a
/// word, so that a following upper-case letter starts a new one.
pub open spec fn is_word_low(c: char) -> bool {
    ('a' <= c && c <= 'z') || ('0' <= c && c <= '9')
}

/// The lower-case form of an upper-case ASCII letter; any other
/// character is unchanged.
pub open spec fn lower_char(c: char) -> char {
    if is_upper(c) {
        ((c as u32) + 32) as char
    } else {
        c
    }
}

/// The sanitized identifier of a field name: separators become
/// underscores, an upper-case letter that follows a lower-case letter or
/// digit opens a new word with an underscore, and all upper-case ASCII
/// letters are lowered.
pub open spec fn ident_of(s: Seq<char>) -> Seq<char>
    decreases s.len(),
{
    if s.len() == 0 {
        Seq::empty()
    } else {
        let prefix = ident_of(s.subrange(0, s.len() - 1));
        let c = s[s.len() - 1];
        if is_sep(c) {
            prefix.push('_')
        } else if is_upper(c) && s.len() >= 2 && is_word_low(s[s.len() - 2]) {
            prefix.push('_').push(lower_char(c))
        } else {
            prefix.push(lower_char(c))
        }
    }
}

/// The record identifier of a child: the parent's identifier and the
/// child's, joined by a double underscore.
pub open spec fn struct_ident_of(parent: Seq<char>, key_ident: Seq<char>) -> Seq<char> {
    parent + "__"@ + key_ident
}

/// The union alternatives of a type expression, in fixed order: boolean,
/// number, string, record reference, sequence-of.
pub open spec fn alts_of(p: Seq<char>, t: TypeModel) -> Seq<Seq<char>>
    decreases t, 0int,
{
    let base = Seq::<Seq<char>>::empty();
    let with_bool = if t.is_bool {
        base.push("bool"@)
    } else {
        base
    };
    let with_number = if t.is_number {
        with_bool.push("f64"@)
    } else {
        with_bool
    };
    let with_string = if t.is_string {
        with_number.push("String"@)
    } else {
        with_number
    };
    let with_object = if t.object.len() > 0 {
        with_string.push(p)
    } else {
        with_string
    };
    match t.array {
        Some(a) => with_object.push("Vec<"@ + type_expr(p, *a) + ">"@),
        None => with_object,
    }
}

/// The alternatives joined by the union separator; empty if there are
/// none: no type was ever observed at this position.
pub open spec fn joined_alts(xs: Seq<Seq<char>>) -> Seq<char>
    decreases xs.len(),
{
    if xs.len() == 0 {
        Seq::empty()
    } else if xs.len() == 1 {
        xs[0]
    } else {
        joined_alts(xs.subrange(0, xs.len() - 1)) + " | "@ + xs[xs.len() - 1]
    }
}

/// The rendered type expression of a field whose record identifier is
/// `p`: the joined alternatives, wrapped as optional if the position is
/// nullable.
pub open spec fn type_expr(p: Seq<char>, t: TypeModel) -> Seq<char>
    decreases t, 1int,
{
    let u = joined_alts(alts_of(p, t));
    if t.is_null {
        "Option<"@ + u + ">"@
    } else {
        u
    }
}

/// One rendered field of a record declaration: the original key in an
/// annotation line, then the sanitized identifier and its type.
pub open spec fn field_line(ident: Seq<char>, e: EntryModel) -> Seq<char> {
    "  #[serde(rename = \""@ + e.0 + "\")]\n  "@ + ident_of(e.0) + ": "@ + type_expr(
        struct_ident_of(ident, ident_of(e.0)),
        e.1,
    ) + ",\n"@
}

/// The rendered fields of a record declaration, in key order.
pub open spec fn fields_text(ident: Seq<char>, s: Seq<EntryModel>) -> Seq<char>
    decreases s.len(),
{
    if s.len() == 0 {
        Seq::empty()
    } else {
        fields_text(ident, s.subrange(0, s.len() - 1)) + field_line(ident, s[s.len() - 1])
    }
}

/// One whole record declaration for an object shape.
pub open spec fn decl_of(ident: Seq<char>, s: Seq<EntryModel>) -> Seq<char> {
    "#[derive(Debug, Serialize, Deserialize)]\nstruct "@ + ident + " {\n"@ + fields_text(ident, s)
        + "}\n"@
}

/// All declarations of a type, in pre-order: its own record if its
/// object shape is non-empty, then each field's declarations in key
/// order, then those of its array element type under the same
/// identifier.
pub open spec fn decls_of(ident: Seq<char>, t: TypeModel) -> Seq<Seq<char>>
    decreases t, 1int,
{
    let head = if t.object.len() > 0 {
        seq![decl_of(ident, t.object)]
    } else {
        Seq::<Seq<char>>::empty()
    };
    let nested = field_decls(ident, t.object);
    match t.array {
        Some(a) => head + nested + decls_of(ident, *a),
        None => head + nested,
    }
}

/// The declarations contributed by the fields of an object shape, in key
/// order.
pub open spec fn field_decls(ident: Seq<char>, s: Seq<EntryModel>) -> Seq<Seq<char>>
    decreases s, 0int,
{
    if s.len() == 0 {
        Seq::<Seq<char>>::empty()
    } else {
        field_decls(ident, s.subrange(0, s.len() - 1)) + decls_of(
            struct_ident_of(ident, ident_of(s[s.len() - 1].0)),
            s[s.len() - 1].1,
        )
    }
}

/// Relies on String::push: appends exactly the given character at the
/// end of the string.
#[verifier::external_body]
fn push_char(s: &mut String, c: char)
    ensures
        final(s)@ == old(s)@.push(c),
{
    s.push(c);
}

/// Sanitize a field name into an identifier: replace `-`, `/` and `.`
/// with underscores and convert to lower-case words delimited by
/// underscores.
#[verifier::loop_isolation(false)]
pub fn to_ident(json_field_name: &str) -> (r: String)
    ensures
        r@ == ident_of(json_field_name@),
{
    let len = json_field_name.unicode_len();
    let mut out = String::new();
    proof {
        assert(json_field_name@.subrange(0, 0) =~= Seq::<char>::empty());
    }
    let mut i: usize = 0;
    while i < len
        invariant
            i <= len,
            out@ == ident_of(json_field_name@.subrange(0, i as int)),
        decreases len - i,
    {
        let c = json_field_name.get_char(i);
        if c == '-' || c == '/' || c == '.' {
            push_char(&mut out, '_');
        } else {
            let low: char;
            if c >= 'A' && c <= 'Z' {
                if i > 0 {
                    let p = json_field_name.get_char(i - 1);
                    if (p >= 'a' && p <= 'z') || (p >= '0' && p <= '9') {
                        push_char(&mut out, '_');
                    }
                }
                low = (((c as u8) + 32)) as char;
            } else {
                low = c;
            }
            push_char(&mut out, low);
        }
        proof {
            let pre = json_field_name@.subrange(0, i as int);
            let cur = json_field_name@.subrange(0, i + 1);
            assert(cur.subrange(0, cur.len() - 1) =~= pre);
            assert(cur[cur.len() - 1] == json_field_name@[i as int]);
            if i > 0 {
                assert(cur[cur.len() - 2] == json_field_name@[i - 1]);
            }
        }
        i = i + 1;
    }
    proof {
        assert(json_field_name@.subrange(0, len as int) =~= json_field_name@);
    }
    out
}

/// Form the record identifier of a child from its parent's identifier
/// and its own sanitized key.
pub fn to_struct_ident(parent_struct_ident: &str, key_ident: &str) -> (r: String)
    ensures
        r@ == struct_ident_of(parent_struct_ident@, key_ident@),
{
    let mut r = parent_struct_ident.to_owned();
    r.append("__");
    r.append(key_ident);
    r
}

/// Render the type expression of a field whose record identifier is `p`:
/// the observed alternatives in fixed order, joined by the union
/// separator, wrapped as optional if the position is nullable.
#[verifier::loop_isolation(false)]
pub fn union_type_string(p: &str, t: &UnionType) -> (s: String)
    ensures
        s@ == type_expr(p@, t@),
    decreases t,
{
    let ghost av = alts_of(p@, t@);
    proof {
        lemma_entries_model(t.object_type.0@);
    }
    let mut alts: Vec<String> = Vec::new();
    if t.is_bool {
        alts.push("bool".to_owned());
    }
    if t.is_number {
        alts.push("f64".to_owned());
    }
    if t.is_string {
        alts.push("String".to_owned());
    }
    if t.object_type.0.len() > 0 {
        alts.push(p.to_owned());
    }
    match &t.array_type {
        Some(a) => {
            let inner = union_type_string(p, &**a);
            let mut w = "Vec<".to_owned();
            w.append(inner.as_str());
            w.append(">");
            alts.push(w);
        }
        None => {},
    }
    proof {
        assert(strings_model(alts@) =~= av);
    }
    let mut u = String::new();
    let mut i: usize = 0;
    proof {
        assert(av.subrange(0, 0) =~= Seq::<Seq<char>>::empty());
    }
    while i < alts.len()
        invariant
            i <= alts.len(),
            strings_model(alts@) == av,
            u@ == joined_alts(av.subrange(0, i as int)),
        decreases alts.len() - i,
    {
        if i > 0 {
            u.append(" | ");
        }
        u.append(alts[i].as_str());
        proof {
            let cur = av.subrange(0, i + 1);
            assert(cur.subrange(0, cur.len() - 1) =~= av.subrange(0, i as int));
            assert(cur[cur.len() - 1] == av[i as int]);
            if i == 0 {
                assert(u@ =~= joined_alts(cur));
            }
        }
        i = i + 1;
    }
    proof {
        assert(av.subrange(0, alts@.len() as int) =~= av);
    }
    if t.is_null {
        let mut w = "Option<".to_owned();
        w.append(u.as_str());
        w.append(">");
        w
    } else {
        u
    }
}

/// Render one record declaration for a non-empty object shape.
#[verifier::loop_isolation(false)]
pub fn print_object_type(struct_ident: &str, object_type: &ObjectType) -> (s: String)
    ensures
        s@ == decl_of(struct_ident@, object_type@),
{
    let ghost em = object_type@;
    proof {
        lemma_entries_model(object_type.0@);
    }
    let mut s = "#[derive(Debug, Serialize, Deserialize)]\nstruct ".to_owned();
    s.append(struct_ident);
    s.append(" {\n");
    let ghost header = s@;
    proof {
        assert(em.subrange(0, 0) =~= Seq::<EntryModel>::empty());
        assert(fields_text(struct_ident@, em.subrange(0, 0)) =~= Seq::<char>::empty());
        assert(s@ =~= header + fields_text(struct_ident@, em.subrange(0, 0)));
    }
    let mut i: usize = 0;
    while i < object_type.0.len()
        invariant
            i <= object_type.0.len(),
            s@ == header + fields_text(struct_ident@, em.subrange(0, i as int)),
        decreases object_type.0.len() - i,
    {
        let key_ident = to_ident(object_type.0[i].0.as_str());
        let child_ident = to_struct_ident(struct_ident, key_ident.as_str());
        s.append("  #[serde(rename = \"");
        s.append(object_type.0[i].0.as_str());
        s.append("\")]\n  ");
        s.append(key_ident.as_str());
        s.append(": ");
        let te = union_type_string(child_ident.as_str(), &object_type.0[i].1);
        s.append(te.as_str());
        s.append(",\n");
        proof {
            let cur = em.subrange(0, i + 1);
            assert(cur.subrange(0, cur.len() - 1) =~= em.subrange(0, i as int));
            assert(cur[cur.len() - 1] == em[i as int]);
            assert(em[i as int] == (object_type.0@[i as int].0@, union_model(
                object_type.0@[i as int].1,
            )));
        }
        i = i + 1;
    }
    proof {
        assert(em.subrange(0, em.len() as int) =~= em);
        assert(em.len() == object_type.0.len());
    }
    s.append("}\n");
    s
}

/// Render all record declarations of a type, in pre-order, under the
/// given root identifier.
#[verifier::loop_isolation(false)]
pub fn print_object_types(struct_ident: &str, t: &UnionType) -> (r: Vec<String>)
    ensures
        strings_model(r@) == decls_of(struct_ident@, t@),
    decreases t,
{
    let ghost em = t.object_type@;
    proof {
        lemma_entries_model(t.object_type.0@);
    }
    let mut out: Vec<String> = Vec::new();
    if t.object_type.0.len() > 0 {
        let head = print_object_type(struct_ident, &t.object_type);
        out.push(head);
    }
    let ghost head_part = strings_model(out@);
    proof {
        assert(em.subrange(0, 0) =~= Seq::<EntryModel>::empty());
        assert(field_decls(struct_ident@, em.subrange(0, 0)) =~= Seq::<Seq<char>>::empty());
        assert(strings_model(out@) =~= head_part + field_decls(
            struct_ident@,
            em.subrange(0, 0),
        ));
    }
    let mut i: usize = 0;
    while i < t.object_type.0.len()
        invariant
            i <= t.object_type.0.len(),
            strings_model(out@) == head_part + field_decls(
                struct_ident@,
                em.subrange(0, i as int),
            ),
        decreases t.object_type.0.len() - i,
    {
        let key_ident = to_ident(t.object_type.0[i].0.as_str());
        let child_ident = to_struct_ident(struct_ident, key_ident.as_str());
        let mut sub = print_object_types(child_ident.as_str(), &t.object_type.0[i].1);
        let ghost sub_model = strings_model(sub@);
        let ghost out_pre = strings_model(out@);
        out.append(&mut sub);
        proof {
            assert(strings_model(out@) =~= out_pre + sub_model);
            let cur = em.subrange(0, i + 1);
            assert(cur.subrange(0, cur.len() - 1) =~= em.subrange(0, i as int));
            assert(cur[cur.len() - 1] == em[i as int]);
            assert(em[i as int] == (t.object_type.0@[i as int].0@, union_model(
                t.object_type.0@[i as int].1,
            )));
        }
        i = i + 1;
    }
    proof {
        assert(em.subrange(0, em.len() as int) =~= em);
        assert(em.len() == t.object_type.0.len());
    }
    match &t.array_type {
        Some(a) => {
            let ghost out_pre = strings_model(out@);
            let mut sub = print_object_types(struct_ident, &**a);
            let ghost sub_model = strings_model(sub@);
            out.append(&mut sub);
            proof {
                assert(strings_model(out@) =~= out_pre + sub_model);
                assert(strings_model(out@) =~= decls_of(struct_ident@, t@));
            }
        }
        None => {
            proof {
                assert(strings_model(out@) =~= decls_of(struct_ident@, t@));
            }
        }
    }
    out
}

} // verus!
