//! The schemas of input variables, as a model reads them.

use vstd::prelude::*;

use crate::modules::rlm::runtime::MethodSignature;
use crate::modules::rlm::types;
use crate::modules::rlm::types::{
    ClassDef,
    ClassField,
    FieldSchema,
    LiteralValue,
    OutputFormat,
    StreamingMode,
    TypeIr,
};
use crate::names;
use crate::text;
use crate::text_laws;

verus! {

/// How many levels of a type are written out.
pub const MAX_DEPTH: usize = 12;

pub open spec fn spaces(n: nat) -> Seq<char> {
    text::repeat(' ', n)
}

fn indented(indent: usize, line: &str) -> (r: String)
    ensures
        r@ == spaces(indent as nat) + line@,
{
    let mut out = String::new();
    text::push_repeat(&mut out, ' ', indent);
    out.append(line);
    proof {
        assert(out@ =~= spaces(indent as nat) + line@);
    }
    out
}

/// A literal in the form in which it is shown in a schema.
pub open spec fn literal_text(v: LiteralValue) -> Seq<char> {
    match v {
        LiteralValue::Text(s) => "String("@ + text::debug_text(s@) + ")"@,
        LiteralValue::Int(n) => "Int("@ + signed(n as int) + ")"@,
        LiteralValue::Bool(b) => if b {
            "Bool(true)"@
        } else {
            "Bool(false)"@
        },
    }
}

/// A number in decimal digits, with its sign when it is negative.
pub open spec fn signed(n: int) -> Seq<char> {
    if n < 0 {
        "-"@ + text::decimal((-n) as nat)
    } else {
        text::decimal(n as nat)
    }
}

fn literal_string(v: &LiteralValue) -> (r: String)
    ensures
        r@ == literal_text(*v),
{
    match v {
        LiteralValue::Text(s) => {
            let mut out = "String(".to_owned();
            let shown = text::debug_string(s.as_str());
            out.append(shown.as_str());
            out.append(")");
            out
        },
        LiteralValue::Int(n) => {
            let mut out = "Int(".to_owned();
            if *n < 0 {
                out.append("-");
                let size: i128 = -(*n as i128);
                text::push_decimal(&mut out, size as u64);
            } else {
                text::push_decimal(&mut out, *n as u64);
            }
            out.append(")");
            proof {
                assert(out@ =~= "Int("@ + signed(*n as int) + ")"@);
            }
            out
        },
        LiteralValue::Bool(b) => if *b {
            "Bool(true)".to_owned()
        } else {
            "Bool(false)".to_owned()
        },
    }
}

/// The lines of a type, `left` levels deep. A class that is being written out already is only
/// named.
pub open spec fn node(
    t: TypeIr,
    f: OutputFormat,
    indent: nat,
    left: nat,
    visited: Seq<Seq<char>>,
) -> Seq<Seq<char>>
    decreases left, 2nat, 0nat,
{
    let pad = spaces(indent);
    if left == 0 {
        seq![pad + types::label(t, f)]
    } else if t.is_optional() && t.inner_type().is_simple() {
        seq![pad + (types::label(t.inner_type(), f) + " | null"@)]
    } else {
        let below = (left - 1) as nat;
        match t {
            TypeIr::List(inner) => if inner.is_simple() {
                seq![pad + ("list["@ + types::label(*inner, f) + "]"@)]
            } else {
                seq![pad + "list["@] + node(*inner, f, indent + 2, below, visited) + seq![
                    pad + "]"@,
                ]
            },
            TypeIr::MapOf(key, value) => if value.is_simple() {
                seq![
                    pad + ("map<"@ + types::label(*key, f) + ", "@ + types::label(*value, f)
                        + ">"@),
                ]
            } else {
                seq![pad + ("map<"@ + types::label(*key, f) + ","@)] + node(
                    *value,
                    f,
                    indent + 2,
                    below,
                    visited,
                ) + seq![pad + ">"@]
            },
            TypeIr::Class { name, mode } => {
                let i = f.class_index(name@, mode, 0);
                if 0 <= i < f.classes@.len() {
                    class_block(f.classes@[i], f, Seq::empty(), indent, left, visited)
                } else {
                    seq![pad + types::short_name(name@)]
                }
            },
            TypeIr::Enum { name } => seq![pad + f.enum_name(name@)],
            TypeIr::Union { options, nullable } => seq![pad + "one of:"@] + option_lines(
                options@,
                options@.len(),
                f,
                indent,
                below,
                visited,
            ) + (if nullable {
                option_of(seq![spaces(indent + 4) + "null"@], indent)
            } else {
                Seq::empty()
            }),
            TypeIr::Alias { name } => {
                let i = f.alias_index(name@, 0);
                if 0 <= i < f.aliases@.len() {
                    node(f.aliases@[i].1, f, indent, below, visited)
                } else {
                    seq![pad + types::short_name(name@)]
                }
            },
            TypeIr::Primitive(p) => seq![pad + types::primitive_text(p)],
            TypeIr::Literal { value, .. } => seq![pad + literal_text(value)],
            TypeIr::Tuple { shown, .. } => seq![pad + types::cleaned(shown@)],
            TypeIr::Top { shown } => seq![pad + types::cleaned(shown@)],
            TypeIr::Arrow { shown } => seq![pad + types::cleaned(shown@)],
        }
    }
}

/// The lines of an option of a union: a bullet, and what follows it under it.
pub open spec fn option_of(lines: Seq<Seq<char>>, indent: nat) -> Seq<Seq<char>> {
    Seq::new(
        lines.len(),
        |i: int|
            if i == 0 {
                spaces(indent + 2) + ("- "@ + text::trim_start(lines[0]))
            } else {
                spaces(indent + 4) + text::trim_start(lines[i])
            },
    )
}

/// The lines of the first `n` options of a union.
pub open spec fn option_lines(
    options: Seq<TypeIr>,
    n: nat,
    f: OutputFormat,
    indent: nat,
    below: nat,
    visited: Seq<Seq<char>>,
) -> Seq<Seq<char>>
    decreases below, 3nat, n,
{
    if n == 0 || n > options.len() {
        Seq::empty()
    } else {
        option_lines(options, (n - 1) as nat, f, indent, below, visited) + option_of(
            node(options[n - 1], f, indent + 4, below, visited),
            indent,
        )
    }
}

/// The line of a method.
pub open spec fn method_line(m: MethodSignature) -> Seq<char> {
    let doc = text::normalized(m.doc@);
    "."@ + m.name@ + m.signature@ + (if doc.len() == 0 {
        Seq::empty()
    } else {
        " // "@ + doc
    })
}

/// A method is shown when it is an ordinary one that has a description.
pub open spec fn shown_method(m: MethodSignature) -> bool {
    !m.is_dunder && !text::is_blank(m.doc@)
}

/// The lines of the methods among the first `n` that are shown.
pub open spec fn method_lines(methods: Seq<MethodSignature>, n: nat, indent: nat) -> Seq<Seq<char>>
    decreases n,
{
    if n == 0 || n > methods.len() {
        Seq::empty()
    } else if shown_method(methods[n - 1]) {
        method_lines(methods, (n - 1) as nat, indent).push(
            spaces(indent) + method_line(methods[n - 1]),
        )
    } else {
        method_lines(methods, (n - 1) as nat, indent)
    }
}

/// The lines of the methods with their heading, when any is shown.
pub open spec fn methods_block(methods: Seq<MethodSignature>, indent: nat) -> Seq<Seq<char>> {
    let lines = method_lines(methods, methods.len(), indent);
    if lines.len() == 0 {
        Seq::empty()
    } else {
        seq![spaces(indent) + "// methods"@] + lines
    }
}

/// The lines of a class.
pub open spec fn class_block(
    class: ClassDef,
    f: OutputFormat,
    methods: Seq<MethodSignature>,
    indent: nat,
    left: nat,
    visited: Seq<Seq<char>>,
) -> Seq<Seq<char>>
    decreases left, 1nat, 0nat,
{
    let name = class.name.rendered@;
    let pad = spaces(indent);
    if left == 0 || visited.contains(name) {
        seq![pad + (name + " { ... }"@)]
    } else {
        seq![pad + (name + " {"@)] + methods_block(methods, indent + 2) + seq![
            spaces(indent + 2) + "// shape"@,
        ] + class_fields(
            class.fields@,
            class.fields@.len(),
            f,
            indent + 2,
            (left - 1) as nat,
            visited.push(name),
        ) + seq![pad + "}"@]
    }
}

/// What is said of a field behind its type.
pub open spec fn remark(description: Option<String>) -> Seq<char> {
    match description {
        Some(d) => if text::is_blank(d@) {
            Seq::empty()
        } else {
            " // "@ + text::normalized(d@)
        },
        None => Seq::empty(),
    }
}

/// The lines of a field: those of its type, with its name before them.
pub open spec fn field_of(field: ClassField, lines: Seq<Seq<char>>, indent: nat) -> Seq<Seq<char>> {
    Seq::new(
        lines.len(),
        |i: int|
            if i == 0 {
                spaces(indent) + (field.name.real@ + ": "@ + text::trim_start(lines[0]) + remark(
                    field.description,
                ))
            } else {
                lines[i]
            },
    )
}

/// The lines of the first `n` fields of a class.
pub open spec fn class_fields(
    fields: Seq<ClassField>,
    n: nat,
    f: OutputFormat,
    indent: nat,
    below: nat,
    visited: Seq<Seq<char>>,
) -> Seq<Seq<char>>
    decreases below, 3nat, n,
{
    if n == 0 || n > fields.len() {
        Seq::empty()
    } else {
        class_fields(fields, (n - 1) as nat, f, indent, below, visited) + field_of(
            fields[n - 1],
            node(fields[n - 1].type_ir, f, indent + 2, below, visited),
            indent,
        )
    }
}

/// A type has at least one line.
pub proof fn types_have_lines(
    t: TypeIr,
    f: OutputFormat,
    indent: nat,
    left: nat,
    visited: Seq<Seq<char>>,
)
    ensures
        node(t, f, indent, left, visited).len() > 0,
    decreases left,
{
    if left > 0 {
        match t {
            TypeIr::Alias { name } => {
                let i = f.alias_index(name@, 0);
                if 0 <= i < f.aliases@.len() {
                    types_have_lines(f.aliases@[i].1, f, indent, (left - 1) as nat, visited);
                }
            },
            TypeIr::Class { name, mode } => {
                let i = f.class_index(name@, mode, 0);
                if 0 <= i < f.classes@.len() {
                    let block = class_block(
                        f.classes@[i],
                        f,
                        Seq::empty(),
                        indent,
                        left,
                        visited,
                    );
                    assert(block.len() > 0);
                    assert(node(t, f, indent, left, visited) == block);
                }
            },
            _ => {},
        }
    }
}

/// Room for the indentation of what is below.
pub open spec fn roomy(indent: usize, left: usize) -> bool {
    indent + 8 * left + 16 <= usize::MAX
}

fn one(line: String) -> (r: Vec<String>)
    ensures
        text::views(r@) == seq![line@],
{
    let mut out: Vec<String> = Vec::new();
    out.push(line);
    proof {
        assert(text::views(out@) =~= seq![line@]);
    }
    out
}

/// Writes lines between an opening and a closing one.
fn between(open: String, lines: Vec<String>, close: String) -> (r: Vec<String>)
    ensures
        text::views(r@) == seq![open@] + text::views(lines@) + seq![close@],
{
    let mut out = one(open);
    text::push_lines(&mut out, lines);
    text::push_line(&mut out, close);
    proof {
        assert(text::views(out@) =~= seq![open@] + text::views(lines@) + seq![close@]);
    }
    out
}

fn push_option(out: &mut Vec<String>, rendered: &Vec<String>, indent: usize)
    requires
        indent + 4 <= usize::MAX,
    ensures
        text::views(final(out)@) == text::views(old(out)@) + option_of(
            text::views(rendered@),
            indent as nat,
        ),
{
    let ghost lines = option_of(text::views(rendered@), indent as nat);
    let mut i: usize = 0;
    proof {
        assert(text::views(out@) =~= text::views(old(out)@) + lines.take(0));
    }
    while i < rendered.len()
        invariant
            indent + 4 <= usize::MAX,
            i <= rendered@.len(),
            lines == option_of(text::views(rendered@), indent as nat),
            text::views(out@) == text::views(old(out)@) + lines.take(i as int),
        decreases rendered@.len() - i,
    {
        let trimmed = text::trim_start_str(rendered[i].as_str());
        let line = if i == 0 {
            let mut bullet = "- ".to_owned();
            bullet.append(trimmed.as_str());
            indented(indent + 2, bullet.as_str())
        } else {
            indented(indent + 4, trimmed.as_str())
        };
        let ghost before = text::views(out@);
        text::push_line(out, line);
        i += 1;
        proof {
            assert(text::views(out@) == before.push(lines[i - 1]));
            assert(text::views(out@) =~= text::views(old(out)@) + lines.take(i as int));
        }
    }
    proof {
        assert(lines.take(i as int) =~= lines);
    }
}

/// The lines of a type, `left` levels deep.
pub fn render_type_node(
    t: &TypeIr,
    f: &OutputFormat,
    indent: usize,
    left: usize,
    visited: &mut Vec<String>,
) -> (r: Vec<String>)
    requires
        roomy(indent, left),
    ensures
        text::views(r@) == node(
            *t,
            *f,
            indent as nat,
            left as nat,
            text::views(old(visited)@),
        ),
        r@.len() > 0,
        text::views(final(visited)@) == text::views(old(visited)@),
    decreases left, 2nat, 0nat,
{
    let ghost seen = text::views(visited@);
    proof {
        types_have_lines(*t, *f, indent as nat, left as nat, seen);
    }
    if left == 0 {
        let shown = types::type_label(t, f);
        return one(indented(indent, shown.as_str()));
    }
    match t.optional_inner() {
        Some(inner) => {
            if inner.is_simple_type() {
                let mut shown = types::type_label(inner, f);
                shown.append(" | null");
                return one(indented(indent, shown.as_str()));
            }
        },
        None => {},
    }
    let out = match t {
        TypeIr::List(inner) => {
            if inner.is_simple_type() {
                let mut shown = "list[".to_owned();
                let item = types::type_label(inner, f);
                shown.append(item.as_str());
                shown.append("]");
                one(indented(indent, shown.as_str()))
            } else {
                let lines = render_type_node(inner, f, indent + 2, left - 1, visited);
                between(indented(indent, "list["), lines, indented(indent, "]"))
            }
        },
        TypeIr::MapOf(key, value) => {
            let mut shown = "map<".to_owned();
            let key_name = types::type_label(key, f);
            shown.append(key_name.as_str());
            if value.is_simple_type() {
                shown.append(", ");
                let value_name = types::type_label(value, f);
                shown.append(value_name.as_str());
                shown.append(">");
                one(indented(indent, shown.as_str()))
            } else {
                shown.append(",");
                let lines = render_type_node(value, f, indent + 2, left - 1, visited);
                between(indented(indent, shown.as_str()), lines, indented(indent, ">"))
            }
        },
        TypeIr::Class { name, mode } => match f.find_class(name.as_str(), *mode) {
            Some(class) => {
                let none: Vec<MethodSignature> = Vec::new();
                proof {
                    assert(none@ =~= Seq::empty());
                }
                render_class_block(class, f, &none, indent, left, visited)
            },
            None => {
                let short = types::short_name_of(name.as_str());
                one(indented(indent, short.as_str()))
            },
        },
        TypeIr::Enum { name } => {
            let shown = f.enum_name_of(name.as_str());
            one(indented(indent, shown.as_str()))
        },
        TypeIr::Union { options, nullable } => {
            let mut out = one(indented(indent, "one of:"));
            let ghost head = seq![spaces(indent as nat) + "one of:"@];
            let ghost below = (left - 1) as nat;
            let mut i: usize = 0;
            proof {
                assert(text::views(out@) =~= head + option_lines(
                    options@,
                    0,
                    *f,
                    indent as nat,
                    below,
                    seen,
                ));
            }
            #[verifier::loop_isolation(false)]
            while i < options.len()
                invariant
                    i <= options@.len(),
                    text::views(visited@) == seen,
                    text::views(out@) == head + option_lines(
                        options@,
                        i as nat,
                        *f,
                        indent as nat,
                        below,
                        seen,
                    ),
                decreases options@.len() - i,
            {
                let ghost before = text::views(out@);
                let rendered = render_type_node(&options[i], f, indent + 4, left - 1, visited);
                push_option(&mut out, &rendered, indent);
                i += 1;
                proof {
                    assert(text::views(out@) =~= head + option_lines(
                        options@,
                        i as nat,
                        *f,
                        indent as nat,
                        below,
                        seen,
                    ));
                }
            }
            if *nullable {
                let last = one(indented(indent + 4, "null"));
                push_option(&mut out, &last, indent);
            } else {
                proof {
                    assert(text::views(out@) =~= text::views(out@) + Seq::empty());
                }
            }
            out
        },
        TypeIr::Alias { name } => match f.find_alias(name.as_str()) {
            Some(alias) => render_type_node(alias, f, indent, left - 1, visited),
            None => {
                let short = types::short_name_of(name.as_str());
                one(indented(indent, short.as_str()))
            },
        },
        TypeIr::Primitive(p) => one(indented(indent, types::primitive_name(*p))),
        TypeIr::Literal { value, .. } => {
            let shown = literal_string(value);
            one(indented(indent, shown.as_str()))
        },
        TypeIr::Tuple { shown, .. } => {
            let clean = types::clean_diagnostic_repr(shown.as_str());
            one(indented(indent, clean.as_str()))
        },
        TypeIr::Top { shown } => {
            let clean = types::clean_diagnostic_repr(shown.as_str());
            one(indented(indent, clean.as_str()))
        },
        TypeIr::Arrow { shown } => {
            let clean = types::clean_diagnostic_repr(shown.as_str());
            one(indented(indent, clean.as_str()))
        },
    };
    proof {
        assert(text::views(out@).len() == out@.len());
    }
    out
}

fn render_method_line(m: &MethodSignature) -> (r: String)
    ensures
        r@ == method_line(*m),
{
    let mut line = ".".to_owned();
    line.append(m.name.as_str());
    line.append(m.signature.as_str());
    let doc = text::normalize(m.doc.as_str());
    if !doc.as_str().is_empty() {
        line.append(" // ");
        line.append(doc.as_str());
        proof {
            assert(line@ =~= method_line(*m));
        }
    } else {
        proof {
            assert(line@ =~= method_line(*m));
        }
    }
    line
}

fn render_methods(methods: &Vec<MethodSignature>, indent: usize) -> (r: Vec<String>)
    ensures
        text::views(r@) == methods_block(methods@, indent as nat),
{
    let mut lines: Vec<String> = Vec::new();
    let mut i: usize = 0;
    proof {
        assert(text::views(lines@) =~= method_lines(methods@, 0, indent as nat));
    }
    while i < methods.len()
        invariant
            i <= methods@.len(),
            text::views(lines@) == method_lines(methods@, i as nat, indent as nat),
        decreases methods@.len() - i,
    {
        if !methods[i].is_dunder && !text::blank(methods[i].doc.as_str()) {
            let line = render_method_line(&methods[i]);
            text::push_line(&mut lines, indented(indent, line.as_str()));
        }
        i += 1;
    }
    proof {
        assert(text::views(lines@).len() == lines@.len());
    }
    if lines.len() == 0 {
        proof {
            assert(text::views(lines@) =~= Seq::empty());
        }
        return lines;
    }
    let mut out = one(indented(indent, "// methods"));
    text::push_lines(&mut out, lines);
    out
}

/// The lines of a class.
pub fn render_class_block(
    class: &ClassDef,
    f: &OutputFormat,
    methods: &Vec<MethodSignature>,
    indent: usize,
    left: usize,
    visited: &mut Vec<String>,
) -> (r: Vec<String>)
    requires
        roomy(indent, left),
    ensures
        text::views(r@) == class_block(
            *class,
            *f,
            methods@,
            indent as nat,
            left as nat,
            text::views(old(visited)@),
        ),
        text::views(final(visited)@) == text::views(old(visited)@),
    decreases left, 1nat, 0nat,
{
    let ghost seen = text::views(visited@);
    let name = class.name.rendered.clone();
    if left == 0 || text::contains_text(visited, name.as_str()) {
        let mut line = name;
        line.append(" { ... }");
        return one(indented(indent, line.as_str()));
    }
    let mut head = name.clone();
    head.append(" {");
    let mut out = one(indented(indent, head.as_str()));
    let method_block = render_methods(methods, indent + 2);
    text::push_lines(&mut out, method_block);
    text::push_line(&mut out, indented(indent + 2, "// shape"));
    let ghost start = text::views(out@);
    text::push_line(visited, name);
    let ghost inner = text::views(visited@);
    let mut i: usize = 0;
    let ghost below = (left - 1) as nat;
    proof {
        assert(inner == seen.push(class.name.rendered@));
        assert(text::views(out@) =~= start + class_fields(
            class.fields@,
            0,
            *f,
            (indent + 2) as nat,
            below,
            inner,
        ));
    }
    #[verifier::loop_isolation(false)]
    while i < class.fields.len()
        invariant
            i <= class.fields@.len(),
            text::views(visited@) == inner,
            text::views(out@) == start + class_fields(
                class.fields@,
                i as nat,
                *f,
                (indent + 2) as nat,
                below,
                inner,
            ),
        decreases class.fields@.len() - i,
    {
        let field = &class.fields[i];
        let rendered = render_type_node(&field.type_ir, f, indent + 4, left - 1, visited);
        push_field(&mut out, field, &rendered, indent + 2);
        i += 1;
        proof {
            assert(text::views(out@) =~= start + class_fields(
                class.fields@,
                i as nat,
                *f,
                (indent + 2) as nat,
                below,
                inner,
            ));
        }
    }
    proof {
        assert(inner.len() == visited@.len());
    }
    let last = visited.pop();
    proof {
        assert(text::views(visited@) =~= inner.drop_last());
        assert(inner.drop_last() =~= seen);
    }
    text::push_line(&mut out, indented(indent, "}"));
    proof {
        assert(text::views(out@) =~= class_block(
            *class,
            *f,
            methods@,
            indent as nat,
            left as nat,
            seen,
        ));
    }
    out
}

fn push_field(out: &mut Vec<String>, field: &ClassField, rendered: &Vec<String>, indent: usize)
    ensures
        text::views(final(out)@) == text::views(old(out)@) + field_of(
            *field,
            text::views(rendered@),
            indent as nat,
        ),
{
    let ghost lines = field_of(*field, text::views(rendered@), indent as nat);
    let mut i: usize = 0;
    proof {
        assert(text::views(out@) =~= text::views(old(out)@) + lines.take(0));
    }
    while i < rendered.len()
        invariant
            i <= rendered@.len(),
            lines == field_of(*field, text::views(rendered@), indent as nat),
            text::views(out@) == text::views(old(out)@) + lines.take(i as int),
        decreases rendered@.len() - i,
    {
        let line = if i == 0 {
            let mut first = field.name.real.clone();
            first.append(": ");
            let trimmed = text::trim_start_str(rendered[0].as_str());
            first.append(trimmed.as_str());
            let ghost named = first@;
            match &field.description {
                Some(d) => {
                    if !text::blank(d.as_str()) {
                        first.append(" // ");
                        let doc = text::normalize(d.as_str());
                        first.append(doc.as_str());
                    }
                },
                None => {},
            }
            proof {
                assert(first@ =~= named + remark(field.description));
            }
            indented(indent, first.as_str())
        } else {
            rendered[i].clone()
        };
        let ghost before = text::views(out@);
        text::push_line(out, line);
        i += 1;
        proof {
            assert(text::views(out@) == before.push(lines[i - 1]));
            assert(text::views(out@) =~= text::views(old(out)@) + lines.take(i as int));
        }
    }
    proof {
        assert(lines.take(i as int) =~= lines);
    }
}

/// The lines of a type in a schema.
pub fn render_type_shape(type_ir: &TypeIr, f: &OutputFormat, indent: usize) -> (r: Vec<String>)
    requires
        roomy(indent, MAX_DEPTH),
    ensures
        text::views(r@) == node(
            *type_ir,
            *f,
            indent as nat,
            MAX_DEPTH as nat,
            Seq::empty(),
        ),
{
    let mut visited: Vec<String> = Vec::new();
    proof {
        assert(text::views(visited@) =~= Seq::empty());
    }
    render_type_node(type_ir, f, indent, MAX_DEPTH, &mut visited)
}

/// The class that a type refers to, itself or as an optional one.
pub open spec fn class_ref(t: TypeIr) -> Option<(Seq<char>, StreamingMode)>
    decreases t,
{
    match t {
        TypeIr::Class { name, mode } => Some((name@, mode)),
        TypeIr::Union { options, nullable } => if nullable && options@.len() == 1 {
            class_ref(options@[0])
        } else {
            None
        },
        _ => None,
    }
}

fn class_type_ref(t: &TypeIr) -> (r: Option<(&str, StreamingMode)>)
    ensures
        match r {
            Some((name, mode)) => class_ref(*t) == Some((name@, mode)),
            None => class_ref(*t) is None,
        },
    decreases t,
{
    match t {
        TypeIr::Class { name, mode } => Some((name.as_str(), *mode)),
        TypeIr::Union { options, nullable } => if *nullable && options.len() == 1 {
            class_type_ref(&options[0])
        } else {
            None
        },
        _ => None,
    }
}

/// The lines of the type of a variable. The methods are those of the variable.
pub open spec fn root_schema(t: TypeIr, f: OutputFormat, methods: Seq<MethodSignature>) -> Seq<
    Seq<char>,
> {
    let plain = node(t, f, 2, MAX_DEPTH as nat, Seq::empty());
    match class_ref(t) {
        Some((name, mode)) => {
            let i = f.class_index(name, mode, 0);
            if 0 <= i < f.classes@.len() {
                class_block(f.classes@[i], f, methods, 2, MAX_DEPTH as nat, Seq::empty())
            } else {
                plain
            }
        },
        None => plain,
    }
}

fn render_root_schema(t: &TypeIr, f: &OutputFormat, methods: &Vec<MethodSignature>) -> (r: Vec<
    String,
>)
    ensures
        text::views(r@) == root_schema(*t, *f, methods@),
{
    match class_type_ref(t) {
        Some((name, mode)) => match f.find_class(name, mode) {
            Some(class) => {
                let mut visited: Vec<String> = Vec::new();
                proof {
                    assert(text::views(visited@) =~= Seq::empty());
                }
                render_class_block(class, f, methods, 2, MAX_DEPTH, &mut visited)
            },
            None => render_type_shape(t, f, 2),
        },
        None => render_type_shape(t, f, 2),
    }
}

/// The lines of a variable.
pub open spec fn variable_block(
    field: FieldSchema,
    f: OutputFormat,
    methods: Seq<MethodSignature>,
) -> Seq<Seq<char>> {
    seq![
        "Variable: `"@ + field.rust_name@ + "` (access it in your code)"@,
        "Type: "@ + types::label(field.type_ir, f),
    ] + (if text::is_blank(field.docs@) {
        Seq::empty()
    } else {
        seq!["Description: "@ + text::normalized(field.docs@)]
    }) + seq!["Schema:"@] + root_schema(field.type_ir, f, methods)
}

fn render_variable_block(
    field: &FieldSchema,
    f: &OutputFormat,
    methods: &Vec<MethodSignature>,
) -> (r: Vec<String>)
    ensures
        text::views(r@) == variable_block(*field, *f, methods@),
{
    let mut head = "Variable: `".to_owned();
    head.append(field.rust_name.as_str());
    head.append("` (access it in your code)");
    let mut out = one(head);
    let mut kind = "Type: ".to_owned();
    let shown = types::type_label(&field.type_ir, f);
    kind.append(shown.as_str());
    text::push_line(&mut out, kind);
    if !text::blank(field.docs.as_str()) {
        let mut about = "Description: ".to_owned();
        let doc = text::normalize(field.docs.as_str());
        about.append(doc.as_str());
        text::push_line(&mut out, about);
    }
    text::push_line(&mut out, "Schema:".to_owned());
    let lines = render_root_schema(&field.type_ir, f, methods);
    text::push_lines(&mut out, lines);
    proof {
        assert(text::views(out@) =~= variable_block(*field, *f, methods@));
    }
    out
}

/// The methods of a variable, none when it is not known.
pub open spec fn methods_of(
    methods_by_var: Seq<(String, Vec<MethodSignature>)>,
    name: Seq<char>,
) -> Seq<MethodSignature> {
    if names::map_of(methods_by_var).dom().contains(name) {
        names::map_of(methods_by_var)[name]@
    } else {
        Seq::empty()
    }
}

/// The lines of the variables among the first `n` that need a schema, an empty one behind each.
pub open spec fn variable_lines(
    fields: Seq<FieldSchema>,
    n: nat,
    f: OutputFormat,
    methods_by_var: Seq<(String, Vec<MethodSignature>)>,
) -> Seq<Seq<char>>
    decreases n,
{
    if n == 0 || n > fields.len() {
        Seq::empty()
    } else {
        let before = variable_lines(fields, (n - 1) as nat, f, methods_by_var);
        let field = fields[n - 1];
        if field.type_ir.is_primitive_input() {
            before
        } else {
            before + variable_block(field, f, methods_of(methods_by_var, field.rust_name@)).push(
                Seq::empty(),
            )
        }
    }
}

/// A list without the empty lines at its end.
pub open spec fn drop_empty_end(lines: Seq<Seq<char>>) -> Seq<Seq<char>>
    decreases lines.len(),
{
    if lines.len() > 0 && lines.last().len() == 0 {
        drop_empty_end(lines.drop_last())
    } else {
        lines
    }
}

/// The schemas of the variables.
pub open spec fn previews_text(
    fields: Seq<FieldSchema>,
    f: OutputFormat,
    methods_by_var: Seq<(String, Vec<MethodSignature>)>,
) -> Seq<char> {
    let lines = variable_lines(fields, fields.len(), f, methods_by_var);
    text::join(
        if lines.len() == 0 {
            seq!["(No complex input variables.)"@]
        } else {
            drop_empty_end(lines)
        },
        "\n"@,
    )
}

/// The schemas of the input variables that need one.
pub fn render_previews(
    fields: &Vec<FieldSchema>,
    f: &OutputFormat,
    methods_by_var: &Vec<(String, Vec<MethodSignature>)>,
) -> (r: String)
    requires
        names::sorted_names(methods_by_var@),
    ensures
        r@ == previews_text(fields@, *f, methods_by_var@),
{
    let mut lines: Vec<String> = Vec::new();
    let none: Vec<MethodSignature> = Vec::new();
    let mut i: usize = 0;
    proof {
        assert(none@ =~= Seq::empty());
        assert(text::views(lines@) =~= variable_lines(fields@, 0, *f, methods_by_var@));
    }
    while i < fields.len()
        invariant
            i <= fields@.len(),
            none@ == Seq::<MethodSignature>::empty(),
            names::sorted_names(methods_by_var@),
            text::views(lines@) == variable_lines(fields@, i as nat, *f, methods_by_var@),
        decreases fields@.len() - i,
    {
        let field = &fields[i];
        if !types::is_primitive_input_type(&field.type_ir) {
            let ghost before = text::views(lines@);
            let methods = match names::get(methods_by_var, field.rust_name.as_str()) {
                Some(m) => m,
                None => &none,
            };
            proof {
                assert(methods@ =~= methods_of(methods_by_var@, field.rust_name@));
            }
            let block = render_variable_block(field, f, methods);
            text::push_lines(&mut lines, block);
            text::push_line(&mut lines, String::new());
            proof {
                assert(text::views(lines@) =~= before + variable_block(
                    *field,
                    *f,
                    methods@,
                ).push(Seq::empty()));
            }
        }
        i += 1;
    }
    proof {
        assert(text::views(lines@).len() == lines@.len());
    }
    if lines.len() == 0 {
        let only = one("(No complex input variables.)".to_owned());
        return text::join_strs(&only, "\n");
    }
    let ghost all = text::views(lines@);
    while lines.len() > 0 && lines[lines.len() - 1].as_str().is_empty()
        invariant
            drop_empty_end(text::views(lines@)) == drop_empty_end(all),
        decreases lines@.len(),
    {
        let ghost before = lines@;
        proof {
            assert(text::views(before).last() == before.last()@);
        }
        lines.pop();
        proof {
            assert(text::views(lines@) =~= text::views(before).drop_last());
        }
    }
    proof {
        let v = text::views(lines@);
        if v.len() > 0 {
            assert(v.last() == lines@.last()@);
        }
    }
    text::join_strs(&lines, "\n")
}

proof fn lemma_drop_empty_end(lines: Seq<Seq<char>>, k: int)
    requires
        0 <= k < lines.len(),
        lines[k].len() > 0,
    ensures
        k < drop_empty_end(lines).len() <= lines.len(),
        drop_empty_end(lines)[k] == lines[k],
    decreases lines.len(),
{
    if lines.last().len() == 0 {
        lemma_drop_empty_end(lines.drop_last(), k);
    }
}

proof fn lemma_variable_lines(
    fields: Seq<FieldSchema>,
    n: nat,
    f: OutputFormat,
    methods_by_var: Seq<(String, Vec<MethodSignature>)>,
    i: int,
    j: int,
) -> (k: int)
    requires
        0 <= i < n <= fields.len(),
        !fields[i].type_ir.is_primitive_input(),
        0 <= j < variable_block(
            fields[i],
            f,
            methods_of(methods_by_var, fields[i].rust_name@),
        ).len(),
    ensures
        0 <= k < variable_lines(fields, n, f, methods_by_var).len(),
        variable_lines(fields, n, f, methods_by_var)[k] == variable_block(
            fields[i],
            f,
            methods_of(methods_by_var, fields[i].rust_name@),
        )[j],
    decreases n,
{
    let before = variable_lines(fields, (n - 1) as nat, f, methods_by_var);
    if i == n - 1 {
        before.len() + j
    } else {
        lemma_variable_lines(fields, (n - 1) as nat, f, methods_by_var, i, j)
    }
}

proof fn lemma_previewed(
    fields: Seq<FieldSchema>,
    f: OutputFormat,
    methods_by_var: Seq<(String, Vec<MethodSignature>)>,
    i: int,
    j: int,
)
    requires
        0 <= i < fields.len(),
        !fields[i].type_ir.is_primitive_input(),
        0 <= j < variable_block(
            fields[i],
            f,
            methods_of(methods_by_var, fields[i].rust_name@),
        ).len(),
        variable_block(fields[i], f, methods_of(methods_by_var, fields[i].rust_name@))[j].len() > 0,
    ensures
        text::has_text(
            previews_text(fields, f, methods_by_var),
            variable_block(fields[i], f, methods_of(methods_by_var, fields[i].rust_name@))[j],
        ),
{
    let lines = variable_lines(fields, fields.len(), f, methods_by_var);
    let k = lemma_variable_lines(fields, fields.len(), f, methods_by_var, i, j);
    lemma_drop_empty_end(lines, k);
    text_laws::lemma_join_at(drop_empty_end(lines), "\n"@, k);
}

/// Every input variable that is more than a text, a number or a truth value is shown: its name,
/// its type, and what is said of it.
pub proof fn every_complex_variable_is_shown(
    fields: &Vec<FieldSchema>,
    f: &OutputFormat,
    methods_by_var: &Vec<(String, Vec<MethodSignature>)>,
    r: String,
    i: int,
)
    requires
        call_ensures(render_previews, (fields, f, methods_by_var), r),
        0 <= i < fields@.len(),
        !fields@[i].type_ir.is_primitive_input(),
    ensures
        text::has_text(
            r@,
            "Variable: `"@ + fields@[i].rust_name@ + "` (access it in your code)"@,
        ),
        text::has_text(r@, "Type: "@ + types::label(fields@[i].type_ir, *f)),
        !text::is_blank(fields@[i].docs@) ==> text::has_text(
            r@,
            "Description: "@ + text::normalized(fields@[i].docs@),
        ),
{
    reveal_strlit("Variable: `");
    reveal_strlit("Type: ");
    reveal_strlit("Description: ");
    lemma_previewed(fields@, *f, methods_by_var@, i, 0);
    lemma_previewed(fields@, *f, methods_by_var@, i, 1);
    if !text::is_blank(fields@[i].docs@) {
        lemma_previewed(fields@, *f, methods_by_var@, i, 2);
    }
}

proof fn lemma_class_fields(
    fields: Seq<ClassField>,
    n: nat,
    f: OutputFormat,
    indent: nat,
    below: nat,
    visited: Seq<Seq<char>>,
    i: int,
) -> (k: int)
    requires
        0 <= i < n <= fields.len(),
    ensures
        0 <= k < class_fields(fields, n, f, indent, below, visited).len(),
        text::has_text(
            class_fields(fields, n, f, indent, below, visited)[k],
            fields[i].name.real@ + ": "@,
        ),
    decreases n,
{
    let before = class_fields(fields, (n - 1) as nat, f, indent, below, visited);
    if i == n - 1 {
        let lines = node(fields[i].type_ir, f, indent + 2, below, visited);
        types_have_lines(fields[i].type_ir, f, indent + 2, below, visited);
        let name = fields[i].name.real@ + ": "@;
        let t = text::trim_start(lines[0]);
        let d = remark(fields[i].description);
        let line = field_of(fields[i], lines, indent)[0];
        text_laws::lemma_grouped(name, t, d);
        text_laws::lemma_grouped(spaces(indent), name, t + d);
        text_laws::lemma_inside(spaces(indent), name, t + d);
        assert(line == spaces(indent) + (name + t + d));
        assert(class_fields(fields, n, f, indent, below, visited)[before.len() as int] == line);
        before.len() as int
    } else {
        lemma_class_fields(fields, (n - 1) as nat, f, indent, below, visited, i)
    }
}

proof fn lemma_method_lines(methods: Seq<MethodSignature>, n: nat, indent: nat, i: int) -> (k: int)
    requires
        0 <= i < n <= methods.len(),
        shown_method(methods[i]),
    ensures
        0 <= k < method_lines(methods, n, indent).len(),
        method_lines(methods, n, indent)[k] == spaces(indent) + method_line(methods[i]),
    decreases n,
{
    if i == n - 1 {
        method_lines(methods, (n - 1) as nat, indent).len() as int
    } else {
        lemma_method_lines(methods, (n - 1) as nat, indent, i)
    }
}

/// A class that is written out names every field, and every ordinary method that is described.
pub proof fn classes_name_their_fields_and_methods(
    class: &ClassDef,
    f: &OutputFormat,
    methods: &Vec<MethodSignature>,
    indent: usize,
    left: usize,
    visited: &mut Vec<String>,
    r: Vec<String>,
    i: int,
    j: int,
)
    requires
        roomy(indent, left),
        left > 0,
        !text::views(old(visited)@).contains(class.name.rendered@),
        call_ensures(render_class_block, (class, f, methods, indent, left, visited), r),
    ensures
        r@.len() > 1,
        text::has_text(r@[0]@, class.name.rendered@),
        0 <= i < class.fields@.len() ==> exists|k: int|
            0 <= k < r@.len() && text::has_text(
                (#[trigger] r@[k])@,
                class.fields@[i].name.real@ + ": "@,
            ),
        0 <= j < methods@.len() && !methods@[j].is_dunder && !text::is_blank(methods@[j].doc@)
            ==> exists|k: int|
            0 <= k < r@.len() && text::has_text(
                (#[trigger] r@[k])@,
                "."@ + methods@[j].name@ + methods@[j].signature@,
            ),
{
    let v = text::views(old(visited)@);
    let name = class.name.rendered@;
    let lines = class_block(*class, *f, methods@, indent as nat, left as nat, v);
    assert(lines == text::views(r@));
    assert(lines.len() == r@.len());
    let pad = spaces(indent as nat);
    let inner = (indent + 2) as nat;
    let block = methods_block(methods@, inner);
    let fields = class_fields(
        class.fields@,
        class.fields@.len(),
        *f,
        inner,
        (left - 1) as nat,
        v.push(name),
    );
    assert(lines =~= seq![pad + (name + " {"@)] + block + seq![spaces(inner) + "// shape"@]
        + fields + seq![pad + "}"@]);
    assert(lines[0] == r@[0]@);
    text_laws::lemma_grouped(pad, name, " {"@);
    text_laws::lemma_inside(pad, name, " {"@);
    if 0 <= i < class.fields@.len() {
        let k = lemma_class_fields(
            class.fields@,
            class.fields@.len(),
            *f,
            inner,
            (left - 1) as nat,
            v.push(name),
            i,
        );
        let at = 1 + block.len() + 1 + k;
        assert(lines[at] == fields[k]);
        assert(lines[at] == r@[at]@);
    }
    if 0 <= j < methods@.len() && !methods@[j].is_dunder && !text::is_blank(methods@[j].doc@) {
        let k = lemma_method_lines(methods@, methods@.len(), inner, j);
        let all = method_lines(methods@, methods@.len(), inner);
        let at = 2 + k;
        assert(block[1 + k] == all[k]);
        assert(lines[at] == all[k]);
        assert(lines[at] == r@[at]@);
        let m = methods@[j];
        let head = "."@ + m.name@ + m.signature@;
        let doc = text::normalized(m.doc@);
        let behind = if doc.len() == 0 {
            Seq::empty()
        } else {
            " // "@ + doc
        };
        assert(method_line(m) == head + behind);
        text_laws::lemma_grouped(spaces(inner), head, behind);
        text_laws::lemma_inside(spaces(inner), head, behind);
    }
}

} // verus!
