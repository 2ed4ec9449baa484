//! The types of fields, as far as they are rendered and converted to.

use vstd::prelude::*;

use crate::text;
use crate::text_laws;

verus! {

/// The primitive types.
#[derive(Clone, Copy, Debug, PartialEq, Eq, Structural)]
pub enum Primitive {
    Text,
    Int,
    Float,
    Bool,
    Null,
    Media,
}

/// A value that a type admits as its only one.
#[derive(Debug)]
pub enum LiteralValue {
    Text(String),
    Int(i64),
    Bool(bool),
}

/// Which of the two forms of a class is meant.
#[derive(Clone, Copy, Debug, PartialEq, Eq, Structural)]
pub enum StreamingMode {
    NonStreaming,
    Streaming,
}

/// A type. `shown` is the diagnostic text of a type that has no shorter one. The options of a
/// union leave the null type out; `nullable` says that it is one of them.
#[derive(Debug)]
pub enum TypeIr {
    Primitive(Primitive),
    Literal { value: LiteralValue, shown: String },
    Enum { name: String },
    Class { name: String, mode: StreamingMode },
    List(Box<TypeIr>),
    MapOf(Box<TypeIr>, Box<TypeIr>),
    Tuple { items: Vec<TypeIr>, shown: String },
    Union { options: Vec<TypeIr>, nullable: bool },
    Alias { name: String },
    Top { shown: String },
    Arrow { shown: String },
}

/// A name as it is in the code, and as a model reads it.
#[derive(Debug)]
pub struct Name {
    pub real: String,
    pub rendered: String,
}

#[derive(Debug)]
pub struct ClassField {
    pub name: Name,
    pub type_ir: TypeIr,
    pub description: Option<String>,
}

#[derive(Debug)]
pub struct ClassDef {
    pub raw_name: String,
    pub mode: StreamingMode,
    pub name: Name,
    pub fields: Vec<ClassField>,
}

#[derive(Debug)]
pub struct EnumDef {
    pub raw_name: String,
    pub name: Name,
    pub values: Vec<Name>,
}

/// The definitions that types refer to, and the type of the output as a whole.
#[derive(Debug)]
pub struct OutputFormat {
    pub target: TypeIr,
    pub classes: Vec<ClassDef>,
    pub enums: Vec<EnumDef>,
    pub aliases: Vec<(String, TypeIr)>,
}

#[derive(Clone, Copy, Debug, PartialEq, Eq, Structural)]
pub enum ConstraintKind {
    Check,
    Assert,
}

#[derive(Debug)]
pub struct Constraint {
    pub kind: ConstraintKind,
    pub label: String,
    pub expression: String,
}

/// A field of a signature. `type_repr` is the diagnostic text of its type.
#[derive(Debug)]
pub struct FieldSchema {
    pub rust_name: String,
    pub lm_name: String,
    pub docs: String,
    pub type_ir: TypeIr,
    pub type_repr: String,
    pub constraints: Vec<Constraint>,
}

/// A signature: its instruction and its fields.
#[derive(Debug)]
pub struct SignatureSchema {
    pub instruction: String,
    pub input_fields: Vec<FieldSchema>,
    pub output_fields: Vec<FieldSchema>,
    pub output_format: OutputFormat,
}

/// The literals are equal.
pub open spec fn same_literal(a: LiteralValue, b: LiteralValue) -> bool {
    match (a, b) {
        (LiteralValue::Text(s), LiteralValue::Text(t)) => s@ == t@,
        (LiteralValue::Int(m), LiteralValue::Int(n)) => m == n,
        (LiteralValue::Bool(p), LiteralValue::Bool(q)) => p == q,
        _ => false,
    }
}

/// The types are equal, with the whole name of each class, enum and alias.
pub open spec fn same_type(a: TypeIr, b: TypeIr) -> bool
    decreases a,
{
    match (a, b) {
        (TypeIr::Primitive(p), TypeIr::Primitive(q)) => p == q,
        (TypeIr::Literal { value: v, shown: s }, TypeIr::Literal { value: w, shown: t }) =>
            same_literal(v, w) && s@ == t@,
        (TypeIr::Enum { name: m }, TypeIr::Enum { name: n }) => m@ == n@,
        (TypeIr::Class { name: m, mode: p }, TypeIr::Class { name: n, mode: q }) => m@ == n@ && p
            == q,
        (TypeIr::List(x), TypeIr::List(y)) => same_type(*x, *y),
        (TypeIr::MapOf(k, x), TypeIr::MapOf(l, y)) => same_type(*k, *l) && same_type(*x, *y),
        (TypeIr::Tuple { items: xs, shown: s }, TypeIr::Tuple { items: ys, shown: t }) => xs@.len()
            == ys@.len() && s@ == t@ && forall|i: int|
            0 <= i < xs@.len() ==> same_type(#[trigger] xs@[i], ys@[i]),
        (
            TypeIr::Union { options: xs, nullable: p },
            TypeIr::Union { options: ys, nullable: q },
        ) => xs@.len() == ys@.len() && p == q && forall|i: int|
            0 <= i < xs@.len() ==> same_type(#[trigger] xs@[i], ys@[i]),
        (TypeIr::Alias { name: m }, TypeIr::Alias { name: n }) => m@ == n@,
        (TypeIr::Top { shown: s }, TypeIr::Top { shown: t }) => s@ == t@,
        (TypeIr::Arrow { shown: s }, TypeIr::Arrow { shown: t }) => s@ == t@,
        _ => false,
    }
}

fn are_same_types(xs: &Vec<TypeIr>, ys: &Vec<TypeIr>) -> (r: bool)
    ensures
        r == (xs@.len() == ys@.len() && forall|i: int|
            0 <= i < xs@.len() ==> same_type(#[trigger] xs@[i], ys@[i])),
    decreases xs,
{
    if xs.len() != ys.len() {
        return false;
    }
    let mut i: usize = 0;
    #[verifier::loop_isolation(false)]
    while i < xs.len()
        invariant
            i <= xs@.len(),
            forall|k: int| 0 <= k < i ==> same_type(#[trigger] xs@[k], ys@[k]),
        decreases xs@.len() - i,
    {
        if !is_same_type(&xs[i], &ys[i]) {
            proof {
                assert(!same_type(xs@[i as int], ys@[i as int]));
            }
            return false;
        }
        i += 1;
    }
    true
}

/// Whether two types are equal.
pub fn is_same_type(a: &TypeIr, b: &TypeIr) -> (r: bool)
    ensures
        r == same_type(*a, *b),
    decreases a,
{
    match (a, b) {
        (TypeIr::Primitive(p), TypeIr::Primitive(q)) => *p == *q,
        (TypeIr::Literal { value: v, shown: s }, TypeIr::Literal { value: w, shown: t }) => {
            let equal = match (v, w) {
                (LiteralValue::Text(x), LiteralValue::Text(y)) => text::text_eq(
                    x.as_str(),
                    y.as_str(),
                ),
                (LiteralValue::Int(m), LiteralValue::Int(n)) => *m == *n,
                (LiteralValue::Bool(p), LiteralValue::Bool(q)) => *p == *q,
                _ => false,
            };
            equal && text::text_eq(s.as_str(), t.as_str())
        },
        (TypeIr::Enum { name: m }, TypeIr::Enum { name: n }) => text::text_eq(
            m.as_str(),
            n.as_str(),
        ),
        (TypeIr::Class { name: m, mode: p }, TypeIr::Class { name: n, mode: q }) => text::text_eq(
            m.as_str(),
            n.as_str(),
        ) && *p == *q,
        (TypeIr::List(x), TypeIr::List(y)) => is_same_type(x, y),
        (TypeIr::MapOf(k, x), TypeIr::MapOf(l, y)) => is_same_type(k, l) && is_same_type(x, y),
        (TypeIr::Tuple { items: xs, shown: s }, TypeIr::Tuple { items: ys, shown: t }) => {
            text::text_eq(s.as_str(), t.as_str()) && are_same_types(xs, ys)
        },
        (
            TypeIr::Union { options: xs, nullable: p },
            TypeIr::Union { options: ys, nullable: q },
        ) => *p == *q && are_same_types(xs, ys),
        (TypeIr::Alias { name: m }, TypeIr::Alias { name: n }) => text::text_eq(
            m.as_str(),
            n.as_str(),
        ),
        (TypeIr::Top { shown: s }, TypeIr::Top { shown: t }) => text::text_eq(
            s.as_str(),
            t.as_str(),
        ),
        (TypeIr::Arrow { shown: s }, TypeIr::Arrow { shown: t }) => text::text_eq(
            s.as_str(),
            t.as_str(),
        ),
        _ => false,
    }
}

/// What is behind the last `sep` in a text.
pub open spec fn last_part(t: Seq<char>, sep: Seq<char>) -> Seq<char> {
    let i = text::last_index(t, sep, t.len() as int);
    if i < 0 {
        t
    } else {
        t.skip(i + sep.len())
    }
}

/// What is behind the last `sep` in a text.
pub fn last_part_of(chars: &[char], sep: &[char]) -> (r: String)
    ensures
        r@ == last_part(chars@, sep@),
{
    let n = chars.len();
    match text::find_last(chars, sep) {
        Some(i) => {
            let from = i + sep.len();
            let part = &chars[from..n];
            proof {
                assert(part@ =~= chars@.skip(i + sep@.len()));
            }
            text::string_of(part)
        },
        None => text::string_of(chars),
    }
}

/// A path without what leads to its last name.
pub open spec fn short_name(path: Seq<char>) -> Seq<char> {
    last_part(path, "::"@)
}

pub fn short_name_of(path: &str) -> (r: String)
    ensures
        r@ == short_name(path@),
{
    let c = text::chars_of(path);
    let sep = text::chars_of("::");
    last_part_of(&c, &sep)
}

/// The character belongs to a path: letters, digits, the underscore, and the mark between the
/// names.
pub open spec fn in_path(c: char, mark: char) -> bool {
    text::is_word_char(c) || c == mark
}

/// How long the path at the start of a text is.
pub open spec fn path_len(s: Seq<char>, mark: char) -> nat
    decreases s.len(),
{
    if s.len() == 0 || !in_path(s[0], mark) {
        0
    } else {
        1 + path_len(s.skip(1), mark)
    }
}

proof fn lemma_path_len(s: Seq<char>, mark: char)
    ensures
        path_len(s, mark) <= s.len(),
        s.len() > 0 && in_path(s[0], mark) ==> path_len(s, mark) > 0,
    decreases s.len(),
{
    if s.len() > 0 && in_path(s[0], mark) {
        lemma_path_len(s.skip(1), mark);
    }
}

/// A text with each path in it cut down to its last name.
pub open spec fn shortened(s: Seq<char>, mark: char, sep: Seq<char>) -> Seq<char>
    decreases s.len(),
    via shortened_decreases
{
    if s.len() == 0 {
        Seq::empty()
    } else if in_path(s[0], mark) {
        last_part(s.take(path_len(s, mark) as int), sep) + shortened(
            s.skip(path_len(s, mark) as int),
            mark,
            sep,
        )
    } else {
        seq![s[0]] + shortened(s.skip(1), mark, sep)
    }
}

#[via_fn]
proof fn shortened_decreases(s: Seq<char>, mark: char, sep: Seq<char>) {
    lemma_path_len(s, mark);
}

/// A text with each path in it cut down to its last name.
pub fn shorten(raw: &str, mark: char, sep: &str) -> (r: String)
    ensures
        r@ == shortened(raw@, mark, sep@),
{
    let c = text::chars_of(raw);
    let n = c.len();
    let separator = text::chars_of(sep);
    let mut out = String::new();
    let mut i: usize = 0;
    proof {
        assert(c@.skip(0) =~= c@);
        assert(out@ + shortened(c@, mark, sep@) =~= shortened(c@, mark, sep@));
    }
    while i < n
        invariant
            i <= n,
            n == c@.len(),
            c@ == raw@,
            separator@ == sep@,
            out@ + shortened(c@.skip(i as int), mark, sep@) == shortened(raw@, mark, sep@),
        decreases n - i,
    {
        let ghost rest = c@.skip(i as int);
        if text::char_is_word(c[i]) || c[i] == mark {
            let mut e: usize = i;
            proof {
                lemma_path_len(rest, mark);
                assert(c@.skip(e as int) =~= rest);
            }
            while e < n && (text::char_is_word(c[e]) || c[e] == mark)
                invariant
                    i <= e <= n,
                    n == c@.len(),
                    rest == c@.skip(i as int),
                    path_len(rest, mark) == (e - i) + path_len(c@.skip(e as int), mark),
                decreases n - e,
            {
                proof {
                    assert(c@.skip(e as int).skip(1) =~= c@.skip(e + 1));
                }
                e += 1;
            }
            proof {
                assert(path_len(rest, mark) == e - i);
            }
            let token = &c[i..e];
            proof {
                assert(token@ =~= rest.take(e - i));
                assert(rest.skip(e - i) =~= c@.skip(e as int));
            }
            let last = last_part_of(token, &separator);
            let ghost before = out@;
            out.append(last.as_str());
            proof {
                assert(out@ + shortened(c@.skip(e as int), mark, sep@) =~= before + shortened(
                    rest,
                    mark,
                    sep@,
                ));
            }
            i = e;
        } else {
            let ghost before = out@;
            out.push(c[i]);
            proof {
                assert(rest.skip(1) =~= c@.skip(i + 1));
                assert(out@ + shortened(c@.skip(i + 1), mark, sep@) =~= before + shortened(
                    rest,
                    mark,
                    sep@,
                ));
            }
            i += 1;
        }
    }
    proof {
        assert(c@.skip(i as int).len() == 0);
        assert(out@ + Seq::<char>::empty() =~= out@);
    }
    out
}

/// Words that a diagnostic text has before the names of types, taken out.
pub open spec fn without_kinds(shown: Seq<char>) -> Seq<char> {
    let a = text::replace_all(shown, "class `"@, Seq::empty());
    let b = text::replace_all(a, "enum `"@, Seq::empty());
    let c = text::replace_all(b, "`"@, Seq::empty());
    let d = text::replace_all(c, "class "@, Seq::empty());
    text::replace_all(d, "enum "@, Seq::empty())
}

/// A diagnostic text without kinds of types, and with short names.
pub open spec fn cleaned(shown: Seq<char>) -> Seq<char> {
    shortened(without_kinds(shown), ':', "::"@)
}

pub fn clean_diagnostic_repr(shown: &str) -> (r: String)
    ensures
        r@ == cleaned(shown@),
{
    proof {
        reveal_strlit("class `");
        reveal_strlit("enum `");
        reveal_strlit("`");
        reveal_strlit("class ");
        reveal_strlit("enum ");
        reveal_strlit("");
        assert(""@ =~= Seq::<char>::empty());
    }
    let a = text::replace_str(shown, "class `", "");
    let b = text::replace_str(a.as_str(), "enum `", "");
    let c = text::replace_str(b.as_str(), "`", "");
    let d = text::replace_str(c.as_str(), "class ", "");
    let e = text::replace_str(d.as_str(), "enum ", "");
    shorten(e.as_str(), ':', "::")
}

impl TypeIr {
    /// A type beside the null type.
    pub open spec fn is_optional(&self) -> bool {
        match self {
            TypeIr::Union { options, nullable } => *nullable && options@.len() == 1,
            _ => false,
        }
    }

    /// What an optional type holds, and any other type itself.
    pub open spec fn inner_type(&self) -> TypeIr {
        match self {
            TypeIr::Union { options, nullable } => if *nullable && options@.len() == 1 {
                options@[0]
            } else {
                *self
            },
            _ => *self,
        }
    }

    /// The type fits on one line whatever is in it.
    pub open spec fn is_simple(&self) -> bool {
        match self.inner_type() {
            TypeIr::Primitive(_) => true,
            TypeIr::Enum { .. } => true,
            TypeIr::Literal { .. } => true,
            TypeIr::Top { .. } => true,
            _ => false,
        }
    }

    pub fn optional_inner(&self) -> (r: Option<&TypeIr>)
        ensures
            match r {
                Some(t) => self.is_optional() && *t == self.inner_type(),
                None => !self.is_optional() && self.inner_type() == *self,
            },
    {
        match self {
            TypeIr::Union { options, nullable } => if *nullable && options.len() == 1 {
                Some(&options[0])
            } else {
                None
            },
            _ => None,
        }
    }

    pub fn is_simple_type(&self) -> (r: bool)
        ensures
            r == self.is_simple(),
    {
        let inner = match self.optional_inner() {
            Some(t) => t,
            None => self,
        };
        match inner {
            TypeIr::Primitive(_) => true,
            TypeIr::Enum { .. } => true,
            TypeIr::Literal { .. } => true,
            TypeIr::Top { .. } => true,
            _ => false,
        }
    }

    /// Whether an input of the type needs no schema: a text, a number or a truth value, which
    /// may be absent.
    pub open spec fn is_primitive_input(&self) -> bool {
        match self.inner_type() {
            TypeIr::Primitive(Primitive::Text) => true,
            TypeIr::Primitive(Primitive::Int) => true,
            TypeIr::Primitive(Primitive::Float) => true,
            TypeIr::Primitive(Primitive::Bool) => true,
            _ => false,
        }
    }
}

pub fn is_primitive_input_type(type_ir: &TypeIr) -> (r: bool)
    ensures
        r == type_ir.is_primitive_input(),
{
    let inner = match type_ir.optional_inner() {
        Some(t) => t,
        None => type_ir,
    };
    match inner {
        TypeIr::Primitive(p) => match p {
            Primitive::Text => true,
            Primitive::Int => true,
            Primitive::Float => true,
            Primitive::Bool => true,
            _ => false,
        },
        _ => false,
    }
}

pub open spec fn primitive_text(p: Primitive) -> Seq<char> {
    match p {
        Primitive::Text => "string"@,
        Primitive::Int => "int"@,
        Primitive::Float => "float"@,
        Primitive::Bool => "bool"@,
        Primitive::Null => "null"@,
        Primitive::Media => "value"@,
    }
}

pub fn primitive_name(p: Primitive) -> (r: &'static str)
    ensures
        r@ == primitive_text(p),
{
    match p {
        Primitive::Text => "string",
        Primitive::Int => "int",
        Primitive::Float => "float",
        Primitive::Bool => "bool",
        Primitive::Null => "null",
        Primitive::Media => "value",
    }
}

impl OutputFormat {
    /// The first class from `from` on with the name and the form, or the number of classes.
    pub open spec fn class_index(&self, name: Seq<char>, mode: StreamingMode, from: int) -> int
        decreases self.classes@.len() - from,
    {
        if from >= self.classes@.len() {
            self.classes@.len() as int
        } else if self.classes@[from].raw_name@ == name && self.classes@[from].mode == mode {
            from
        } else {
            self.class_index(name, mode, from + 1)
        }
    }

    pub fn find_class(&self, name: &str, mode: StreamingMode) -> (r: Option<&ClassDef>)
        ensures
            ({
                let i = self.class_index(name@, mode, 0);
                match r {
                    Some(c) => i < self.classes@.len() && *c == self.classes@[i],
                    None => i == self.classes@.len(),
                }
            }),
            0 <= self.class_index(name@, mode, 0) <= self.classes@.len(),
    {
        let mut i: usize = 0;
        while i < self.classes.len()
            invariant
                i <= self.classes@.len(),
                self.class_index(name@, mode, 0) == self.class_index(name@, mode, i as int),
            decreases self.classes@.len() - i,
        {
            if text::text_eq(self.classes[i].raw_name.as_str(), name) && self.classes[i].mode
                == mode {
                return Some(&self.classes[i]);
            }
            i += 1;
        }
        None
    }

    /// The first enum from `from` on with the name, or the number of enums.
    pub open spec fn enum_index(&self, name: Seq<char>, from: int) -> int
        decreases self.enums@.len() - from,
    {
        if from >= self.enums@.len() {
            self.enums@.len() as int
        } else if self.enums@[from].raw_name@ == name {
            from
        } else {
            self.enum_index(name, from + 1)
        }
    }

    pub fn find_enum(&self, name: &str) -> (r: Option<&EnumDef>)
        ensures
            ({
                let i = self.enum_index(name@, 0);
                match r {
                    Some(e) => i < self.enums@.len() && *e == self.enums@[i],
                    None => i == self.enums@.len(),
                }
            }),
            0 <= self.enum_index(name@, 0) <= self.enums@.len(),
    {
        let mut i: usize = 0;
        while i < self.enums.len()
            invariant
                i <= self.enums@.len(),
                self.enum_index(name@, 0) == self.enum_index(name@, i as int),
            decreases self.enums@.len() - i,
        {
            if text::text_eq(self.enums[i].raw_name.as_str(), name) {
                return Some(&self.enums[i]);
            }
            i += 1;
        }
        None
    }

    /// The first alias from `from` on with the name, or the number of aliases.
    pub open spec fn alias_index(&self, name: Seq<char>, from: int) -> int
        decreases self.aliases@.len() - from,
    {
        if from >= self.aliases@.len() {
            self.aliases@.len() as int
        } else if self.aliases@[from].0@ == name {
            from
        } else {
            self.alias_index(name, from + 1)
        }
    }

    pub fn find_alias(&self, name: &str) -> (r: Option<&TypeIr>)
        ensures
            ({
                let i = self.alias_index(name@, 0);
                match r {
                    Some(t) => i < self.aliases@.len() && *t == self.aliases@[i].1,
                    None => i == self.aliases@.len(),
                }
            }),
            0 <= self.alias_index(name@, 0) <= self.aliases@.len(),
    {
        let mut i: usize = 0;
        while i < self.aliases.len()
            invariant
                i <= self.aliases@.len(),
                self.alias_index(name@, 0) == self.alias_index(name@, i as int),
            decreases self.aliases@.len() - i,
        {
            if text::text_eq(self.aliases[i].0.as_str(), name) {
                return Some(&self.aliases[i].1);
            }
            i += 1;
        }
        None
    }

    /// What a model reads for a class.
    pub open spec fn class_name(&self, name: Seq<char>, mode: StreamingMode) -> Seq<char> {
        let i = self.class_index(name, mode, 0);
        if i < self.classes@.len() {
            self.classes@[i].name.rendered@
        } else {
            short_name(name)
        }
    }

    /// What a model reads for an enum.
    pub open spec fn enum_name(&self, name: Seq<char>) -> Seq<char> {
        let i = self.enum_index(name, 0);
        if i < self.enums@.len() {
            self.enums@[i].name.rendered@
        } else {
            short_name(name)
        }
    }

    pub fn enum_name_of(&self, name: &str) -> (r: String)
        ensures
            r@ == self.enum_name(name@),
    {
        match self.find_enum(name) {
            Some(e) => e.name.rendered.clone(),
            None => short_name_of(name),
        }
    }
}

/// A type on one line.
pub open spec fn label(t: TypeIr, f: OutputFormat) -> Seq<char>
    decreases t, 0nat,
{
    match t {
        TypeIr::Primitive(p) => primitive_text(p),
        TypeIr::Class { name, mode } => f.class_name(name@, mode),
        TypeIr::Enum { name } => f.enum_name(name@),
        TypeIr::List(inner) => "list["@ + label(*inner, f) + "]"@,
        TypeIr::MapOf(key, value) => "map<"@ + label(*key, f) + ", "@ + label(*value, f) + ">"@,
        TypeIr::Union { options, nullable } => text::join(
            labels(options@, options@.len(), f) + (if nullable {
                seq!["null"@]
            } else {
                Seq::empty()
            }),
            " | "@,
        ),
        TypeIr::Alias { name } => short_name(name@),
        TypeIr::Literal { shown, .. } => cleaned(shown@),
        TypeIr::Tuple { shown, .. } => cleaned(shown@),
        TypeIr::Top { shown } => cleaned(shown@),
        TypeIr::Arrow { shown } => cleaned(shown@),
    }
}

/// The first `n` of the types, each on one line.
pub open spec fn labels(types: Seq<TypeIr>, n: nat, f: OutputFormat) -> Seq<Seq<char>>
    decreases types, n,
{
    if n == 0 || n > types.len() {
        Seq::empty()
    } else {
        labels(types, (n - 1) as nat, f).push(label(types[n - 1], f))
    }
}

/// A type on one line.
pub fn type_label(t: &TypeIr, f: &OutputFormat) -> (r: String)
    ensures
        r@ == label(*t, *f),
    decreases t,
{
    match t {
        TypeIr::Primitive(p) => primitive_name(*p).to_owned(),
        TypeIr::Class { name, mode } => match f.find_class(name.as_str(), *mode) {
            Some(c) => c.name.rendered.clone(),
            None => short_name_of(name.as_str()),
        },
        TypeIr::Enum { name } => f.enum_name_of(name.as_str()),
        TypeIr::List(inner) => {
            let mut out = "list[".to_owned();
            let shown = type_label(inner, f);
            out.append(shown.as_str());
            out.append("]");
            out
        },
        TypeIr::MapOf(key, value) => {
            let mut out = "map<".to_owned();
            let k = type_label(key, f);
            out.append(k.as_str());
            out.append(", ");
            let v = type_label(value, f);
            out.append(v.as_str());
            out.append(">");
            out
        },
        TypeIr::Union { options, nullable } => {
            let mut shown: Vec<String> = Vec::new();
            let mut i: usize = 0;
            #[verifier::loop_isolation(false)]
            while i < options.len()
                invariant
                    i <= options@.len(),
                    text::views(shown@) == labels(options@, i as nat, *f),
                decreases options@.len() - i,
            {
                let ghost before = shown@;
                shown.push(type_label(&options[i], f));
                i += 1;
                proof {
                    assert(text::views(shown@) =~= text::views(before).push(
                        label(options@[i - 1], *f),
                    ));
                }
            }
            let ghost before = shown@;
            if *nullable {
                shown.push("null".to_owned());
                proof {
                    assert(text::views(shown@) =~= text::views(before) + seq!["null"@]);
                }
            } else {
                proof {
                    assert(text::views(shown@) =~= text::views(before) + Seq::empty());
                }
            }
            text::join_strs(&shown, " | ")
        },
        TypeIr::Alias { name } => short_name_of(name.as_str()),
        TypeIr::Literal { shown, .. } => clean_diagnostic_repr(shown.as_str()),
        TypeIr::Tuple { shown, .. } => clean_diagnostic_repr(shown.as_str()),
        TypeIr::Top { shown } => clean_diagnostic_repr(shown.as_str()),
        TypeIr::Arrow { shown } => clean_diagnostic_repr(shown.as_str()),
    }
}

/// A type on one line, by itself: classes and enums go by their own names.
pub open spec fn plain_label(t: TypeIr) -> Seq<char>
    decreases t, 0nat,
{
    match t {
        TypeIr::Primitive(p) => primitive_text(p),
        TypeIr::Class { name, .. } => short_name(name@),
        TypeIr::Enum { name } => short_name(name@),
        TypeIr::List(inner) => "list["@ + plain_label(*inner) + "]"@,
        TypeIr::MapOf(key, value) => "map<"@ + plain_label(*key) + ", "@ + plain_label(*value)
            + ">"@,
        TypeIr::Union { options, nullable } => text::join(
            plain_labels(options@, options@.len()) + (if nullable {
                seq!["null"@]
            } else {
                Seq::empty()
            }),
            " | "@,
        ),
        TypeIr::Alias { name } => short_name(name@),
        TypeIr::Literal { shown, .. } => cleaned(shown@),
        TypeIr::Tuple { shown, .. } => cleaned(shown@),
        TypeIr::Top { shown } => cleaned(shown@),
        TypeIr::Arrow { shown } => cleaned(shown@),
    }
}

/// The first `n` of the types, each on one line by itself.
pub open spec fn plain_labels(types: Seq<TypeIr>, n: nat) -> Seq<Seq<char>>
    decreases types, n,
{
    if n == 0 || n > types.len() {
        Seq::empty()
    } else {
        plain_labels(types, (n - 1) as nat).push(plain_label(types[n - 1]))
    }
}

/// A type on one line, by itself.
pub fn plain_type_label(t: &TypeIr) -> (r: String)
    ensures
        r@ == plain_label(*t),
    decreases t,
{
    match t {
        TypeIr::Primitive(p) => primitive_name(*p).to_owned(),
        TypeIr::Class { name, .. } => short_name_of(name.as_str()),
        TypeIr::Enum { name } => short_name_of(name.as_str()),
        TypeIr::List(inner) => {
            let mut out = "list[".to_owned();
            let shown = plain_type_label(inner);
            out.append(shown.as_str());
            out.append("]");
            out
        },
        TypeIr::MapOf(key, value) => {
            let mut out = "map<".to_owned();
            let k = plain_type_label(key);
            out.append(k.as_str());
            out.append(", ");
            let v = plain_type_label(value);
            out.append(v.as_str());
            out.append(">");
            out
        },
        TypeIr::Union { options, nullable } => {
            let mut shown: Vec<String> = Vec::new();
            let mut i: usize = 0;
            #[verifier::loop_isolation(false)]
            while i < options.len()
                invariant
                    i <= options@.len(),
                    text::views(shown@) == plain_labels(options@, i as nat),
                decreases options@.len() - i,
            {
                let ghost before = shown@;
                shown.push(plain_type_label(&options[i]));
                i += 1;
                proof {
                    assert(text::views(shown@) =~= text::views(before).push(
                        plain_label(options@[i - 1]),
                    ));
                }
            }
            let ghost before = shown@;
            if *nullable {
                shown.push("null".to_owned());
                proof {
                    assert(text::views(shown@) =~= text::views(before) + seq!["null"@]);
                }
            } else {
                proof {
                    assert(text::views(shown@) =~= text::views(before) + Seq::empty());
                }
            }
            text::join_strs(&shown, " | ")
        },
        TypeIr::Alias { name } => short_name_of(name.as_str()),
        TypeIr::Literal { shown, .. } => clean_diagnostic_repr(shown.as_str()),
        TypeIr::Tuple { shown, .. } => clean_diagnostic_repr(shown.as_str()),
        TypeIr::Top { shown } => clean_diagnostic_repr(shown.as_str()),
        TypeIr::Arrow { shown } => clean_diagnostic_repr(shown.as_str()),
    }
}

/// The label of a list is that of its items between brackets, and that of a map holds those of
/// its keys and its values.
pub proof fn labels_hold_those_of_the_parts(
    t: &TypeIr,
    f: &OutputFormat,
    r: String,
    a: &TypeIr,
    x: String,
    b: &TypeIr,
    y: String,
)
    requires
        call_ensures(type_label, (t, f), r),
        call_ensures(type_label, (a, f), x),
        call_ensures(type_label, (b, f), y),
    ensures
        *t == TypeIr::List(Box::new(*a)) ==> r@ == "list["@ + x@ + "]"@,
        *t == TypeIr::MapOf(Box::new(*a), Box::new(*b)) ==> r@ == "map<"@ + x@ + ", "@ + y@ + ">"@,
{
}

proof fn lemma_labels(types: Seq<TypeIr>, n: nat, f: OutputFormat)
    requires
        n <= types.len(),
    ensures
        labels(types, n, f).len() == n,
        forall|i: int| 0 <= i < n ==> #[trigger] labels(types, n, f)[i] == label(types[i], f),
    decreases n,
{
    if n > 0 {
        lemma_labels(types, (n - 1) as nat, f);
    }
}

/// The label of a union names each of its options, in order, and whether there may be none.
pub proof fn labels_of_unions_name_every_option(
    options: Vec<TypeIr>,
    nullable: bool,
    f: &OutputFormat,
    r: String,
    i: int,
    option: String,
)
    requires
        call_ensures(type_label, (&TypeIr::Union { options, nullable }, f), r),
        0 <= i < options@.len(),
        call_ensures(type_label, (&options@[i], f), option),
    ensures
        text::has_text(r@, option@),
        nullable ==> text::has_suffix(r@, " | null"@),
        options@.len() == 1 && nullable ==> r@ == option@ + " | null"@,
        options@.len() == 1 && !nullable ==> r@ == option@,
{
    let parts = labels(options@, options@.len(), *f) + (if nullable {
        seq!["null"@]
    } else {
        Seq::empty()
    });
    lemma_labels(options@, options@.len(), *f);
    assert(parts[i] == option@);
    text_laws::lemma_join_at(parts, " | "@, i);
    assert(text::has_text(r@, parts[i]));
    if nullable {
        reveal_strlit(" | null");
        reveal_strlit(" | ");
        reveal_strlit("null");
        assert(" | null"@ =~= " | "@ + "null"@);
        let front = text::join(parts.drop_last(), " | "@);
        text_laws::lemma_grouped(front, " | "@, "null"@);
        text_laws::lemma_ends(front, " | null"@);
        if options@.len() == 1 {
            assert(parts.drop_last()[0] == option@);
        }
    }
}

/// A class goes by the name that the model reads for it.
pub proof fn labels_of_classes_are_the_names_shown(
    name: String,
    mode: StreamingMode,
    f: &OutputFormat,
    r: String,
    i: int,
)
    requires
        call_ensures(type_label, (&TypeIr::Class { name, mode }, f), r),
        0 <= i < f.classes@.len(),
        f.classes@[i].raw_name@ == name@,
        f.classes@[i].mode == mode,
        forall|j: int|
            0 <= j < i ==> (#[trigger] f.classes@[j]).raw_name@ != name@ || f.classes@[j].mode
                != mode,
    ensures
        r@ == f.classes@[i].name.rendered@,
{
    lemma_class_index(*f, name@, mode, 0, i);
}

proof fn lemma_class_index(
    f: OutputFormat,
    name: Seq<char>,
    mode: StreamingMode,
    from: int,
    i: int,
)
    requires
        0 <= from <= i < f.classes@.len(),
        f.classes@[i].raw_name@ == name,
        f.classes@[i].mode == mode,
        forall|j: int|
            from <= j < i ==> (#[trigger] f.classes@[j]).raw_name@ != name || f.classes@[j].mode
                != mode,
    ensures
        f.class_index(name, mode, from) == i,
    decreases i - from,
{
    if from < i {
        assert(f.classes@[from].raw_name@ != name || f.classes@[from].mode != mode);
        lemma_class_index(f, name, mode, from + 1, i);
    }
}

/// A type is the same as itself, and types of different kinds are not.
pub proof fn types_are_the_same_as_themselves(a: &TypeIr, b: &TypeIr, x: bool, y: bool)
    requires
        call_ensures(is_same_type, (a, a), x),
        call_ensures(is_same_type, (a, b), y),
    ensures
        x,
        y ==> (a is Primitive <==> b is Primitive) && (a is Class <==> b is Class) && (a is Enum
            <==> b is Enum) && (a is List <==> b is List) && (a is MapOf <==> b is MapOf) && (
        a is Union <==> b is Union) && (a is Literal <==> b is Literal),
        y && a is Class ==> a->Class_name@ == b->Class_name@ && a->mode == b->mode,
        y && a is Enum ==> a->Enum_name@ == b->Enum_name@,
        y && a is Primitive ==> a->Primitive_0 == b->Primitive_0,
        y && a is Union ==> a->options@.len() == b->options@.len() && a->nullable == b->nullable,
{
    lemma_same_type(*a);
}

proof fn lemma_same_type(a: TypeIr)
    ensures
        same_type(a, a),
    decreases a,
{
    match a {
        TypeIr::List(x) => {
            lemma_same_type(*x);
        },
        TypeIr::MapOf(k, x) => {
            lemma_same_type(*k);
            lemma_same_type(*x);
        },
        TypeIr::Tuple { items, shown } => {
            lemma_same_types(items);
        },
        TypeIr::Union { options, nullable } => {
            lemma_same_types(options);
        },
        _ => {},
    }
}

proof fn lemma_same_types(a: Vec<TypeIr>)
    ensures
        forall|i: int| 0 <= i < a@.len() ==> same_type(#[trigger] a@[i], a@[i]),
    decreases a,
{
    assert forall|i: int| 0 <= i < a@.len() implies same_type(#[trigger] a@[i], a@[i]) by {
        lemma_same_type(a@[i]);
    }
}

/// The short name of a path is what is behind its last mark, and a name without a mark stands for
/// itself.
pub proof fn short_names_are_the_last_part(
    path: &str,
    r: String,
    front: Seq<char>,
    name: Seq<char>,
)
    requires
        call_ensures(short_name_of, (path,), r),
        forall|i: int| 0 <= i < name.len() ==> #[trigger] name[i] != ':',
    ensures
        path@ == front + "::"@ + name ==> r@ == name,
        path@ == name ==> r@ == name,
{
    reveal_strlit("::");
    if path@ == front + "::"@ + name {
        let s = path@;
        let at = front.len() as int;
        assert(s.subrange(at, at + 2) =~= "::"@);
        assert forall|k: int| at < k <= s.len() implies !#[trigger] text::occurs_at(s, "::"@, k) by {
            if text::occurs_at(s, "::"@, k) {
                assert(s.subrange(k, k + 2)[1] == ':');
                assert(s[k + 1] == name[k + 1 - at - 2]);
            }
        }
        lemma_last_place(s, "::"@, s.len() as int, at);
        assert(s.skip(at + 2) =~= name);
    }
    if path@ == name {
        let s = path@;
        assert forall|k: int| 0 <= k <= s.len() implies !#[trigger] text::occurs_at(s, "::"@, k) by {
            if text::occurs_at(s, "::"@, k) {
                assert(s.subrange(k, k + 2)[0] == ':');
                assert(s[k] == name[k]);
            }
        }
        lemma_no_place(s, "::"@, s.len() as int);
    }
}

proof fn lemma_last_place(s: Seq<char>, pat: Seq<char>, from: int, at: int)
    requires
        0 <= at <= from,
        text::occurs_at(s, pat, at),
        forall|k: int| at < k <= from ==> !#[trigger] text::occurs_at(s, pat, k),
    ensures
        text::last_index(s, pat, from) == at,
    decreases from - at,
{
    if from > at {
        assert(!text::occurs_at(s, pat, from));
        lemma_last_place(s, pat, from - 1, at);
    }
}

proof fn lemma_no_place(s: Seq<char>, pat: Seq<char>, from: int)
    requires
        forall|k: int| 0 <= k <= from ==> !#[trigger] text::occurs_at(s, pat, k),
    ensures
        text::last_index(s, pat, from) == -1,
    decreases from + 1,
{
    if from >= 0 {
        assert(!text::occurs_at(s, pat, from));
        lemma_no_place(s, pat, from - 1);
    }
}

/// A text without the mark has no paths in it, and stays as it is when they are cut down.
pub proof fn lemma_shortened_unmarked(s: Seq<char>, mark: char, sep: Seq<char>)
    requires
        sep.len() > 0,
        sep[0] == mark,
        forall|i: int| 0 <= i < s.len() ==> #[trigger] s[i] != mark,
    ensures
        shortened(s, mark, sep) == s,
    decreases s.len(),
{
    if s.len() > 0 {
        lemma_path_len(s, mark);
        if in_path(s[0], mark) {
            let n = path_len(s, mark) as int;
            let path = s.take(n);
            lemma_unfound_last(path, sep, path.len() as int);
            lemma_shortened_unmarked(s.skip(n), mark, sep);
            assert(path + s.skip(n) =~= s);
        } else {
            lemma_shortened_unmarked(s.skip(1), mark, sep);
            assert(seq![s[0]] + s.skip(1) =~= s);
        }
    }
}

proof fn lemma_unfound_last(s: Seq<char>, sep: Seq<char>, from: int)
    requires
        sep.len() > 0,
        forall|i: int| 0 <= i < s.len() ==> #[trigger] s[i] != sep[0],
        -1 <= from <= s.len(),
    ensures
        text::last_index(s, sep, from) < 0,
    decreases from + 1,
{
    if from >= 0 {
        if text::occurs_at(s, sep, from) {
            assert(s.subrange(from, from + sep.len())[0] == s[from]);
        }
        lemma_unfound_last(s, sep, from - 1);
    }
}

proof fn lemma_mark_unfound(s: Seq<char>, pat: Seq<char>)
    requires
        pat.len() > 0,
        forall|i: int| 0 <= i < s.len() ==> #[trigger] s[i] != pat.last(),
    ensures
        text::replace_all(s, pat, Seq::empty()) == s,
{
    if text::has_text(s, pat) {
        let i = choose|i: int| text::occurs_at(s, pat, i);
        assert(s.subrange(i, i + pat.len())[pat.len() - 1] == s[i + pat.len() - 1]);
    }
    text_laws::lemma_replaced_unfound(s, pat, Seq::empty());
}

/// A diagnostic that names no kinds and no paths is shown as it is.
pub proof fn plain_diagnostics_are_shown_as_they_are(shown: &str, r: String)
    requires
        call_ensures(clean_diagnostic_repr, (shown,), r),
        !text::has_text(shown@, "class "@),
        !text::has_text(shown@, "enum "@),
        forall|i: int| 0 <= i < shown@.len() ==> #[trigger] shown@[i] != ':' && shown@[i] != '`',
    ensures
        r@ == shown@,
{
    let s = shown@;
    assert("class `"@.len() > 0 && "class `"@.last() == '`') by {
        reveal_strlit("class `");
    }
    assert("enum `"@.len() > 0 && "enum `"@.last() == '`') by {
        reveal_strlit("enum `");
    }
    assert("`"@.len() > 0 && "`"@.last() == '`') by {
        reveal_strlit("`");
    }
    assert("class "@.len() > 0) by {
        reveal_strlit("class ");
    }
    assert("enum "@.len() > 0) by {
        reveal_strlit("enum ");
    }
    assert("::"@.len() > 0 && "::"@[0] == ':') by {
        reveal_strlit("::");
    }
    lemma_mark_unfound(s, "class `"@);
    lemma_mark_unfound(s, "enum `"@);
    lemma_mark_unfound(s, "`"@);
    text_laws::lemma_replaced_unfound(s, "class "@, Seq::empty());
    text_laws::lemma_replaced_unfound(s, "enum "@, Seq::empty());
    lemma_shortened_unmarked(s, ':', "::"@);
}

} // verus!
