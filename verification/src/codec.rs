//! The argument codec: from a structured payload to a typed request record.
//!
//! Decoding reads each field under its wire name, which is the camel-case
//! form of the record's own field name: `root_name` travels as `rootName`.
//! It first asks that every required field is there, in the order of
//! declaration, and then reads each field in that order. The first fault
//! found is reported. An optional field that is missing, or null, decodes to
//! `None`. Fields that the record does not declare are passed over. Decoding
//! only reads the payload.

use crate::error::{DecodeError, DecodeErrorView};
use crate::payload::{Payload, ValueKind};
use crate::text::owned_text;
use crate::text_map::{as_map, has_key, keys_differ, lemma_push_is_insert, TextMap};
use vstd::prelude::*;

verus! {

/// The arguments of the op that compiles a program.
#[derive(Debug, PartialEq, Eq)]
pub struct CompileArgs {
    pub root_name: String,
    pub sources: Option<TextMap<String>>,
    pub bundle: bool,
    pub options: Option<String>,
}

/// The model of [`CompileArgs`].
pub struct CompileArgsView {
    pub root_name: Seq<char>,
    pub sources: Option<Map<Seq<char>, Seq<char>>>,
    pub bundle: bool,
    pub options: Option<Seq<char>>,
}

/// The arguments of the op that transpiles sources.
#[derive(Debug, PartialEq, Eq)]
pub struct TranspileArgs {
    pub sources: TextMap<String>,
    pub options: Option<String>,
}

/// The model of [`TranspileArgs`].
pub struct TranspileArgsView {
    pub sources: Map<Seq<char>, Seq<char>>,
    pub options: Option<Seq<char>>,
}

/// Which record an op takes as its arguments.
#[derive(Debug, Clone, Copy, PartialEq, Eq, Structural)]
pub enum ArgSchema {
    Compile,
    Transpile,
}

/// A decoded request record.
#[derive(Debug, PartialEq, Eq)]
pub enum TypedArgs {
    Compile(CompileArgs),
    Transpile(TranspileArgs),
}

/// The model of [`TypedArgs`].
pub enum TypedArgsView {
    Compile(CompileArgsView),
    Transpile(TranspileArgsView),
}

/// The characters of each text in a map of texts.
pub open spec fn text_views(texts: Map<Seq<char>, String>) -> Map<Seq<char>, Seq<char>> {
    texts.map_values(|text: String| text@)
}

/// The characters of an optional text.
pub open spec fn optional_view(text: Option<String>) -> Option<Seq<char>> {
    match text {
        Some(t) => Some(t@),
        None => None,
    }
}

impl View for CompileArgs {
    type V = CompileArgsView;

    open spec fn view(&self) -> CompileArgsView {
        CompileArgsView {
            root_name: self.root_name@,
            sources: match self.sources {
                Some(texts) => Some(text_views(texts@)),
                None => None,
            },
            bundle: self.bundle,
            options: optional_view(self.options),
        }
    }
}

impl View for TranspileArgs {
    type V = TranspileArgsView;

    open spec fn view(&self) -> TranspileArgsView {
        TranspileArgsView {
            sources: text_views(self.sources@),
            options: optional_view(self.options),
        }
    }
}

impl View for TypedArgs {
    type V = TypedArgsView;

    open spec fn view(&self) -> TypedArgsView {
        match self {
            TypedArgs::Compile(args) => TypedArgsView::Compile(args@),
            TypedArgs::Transpile(args) => TypedArgsView::Transpile(args@),
        }
    }
}

/// The upper-case form of a lower-case ASCII letter; any other character as it is.
pub open spec fn upper(c: char) -> char {
    if 'a' <= c && c <= 'z' {
        ((c as u8) - 32) as char
    } else {
        c
    }
}

/// The lower-case form of an upper-case ASCII letter; any other character as it is.
pub open spec fn lower(c: char) -> char {
    if 'A' <= c && c <= 'Z' {
        ((c as u8) + 32) as char
    } else {
        c
    }
}

/// A field name without its underscores, each character that followed one
/// in upper case, and the first one too if `capitalize` is set.
pub open spec fn pascal_case(name: Seq<char>, capitalize: bool) -> Seq<char>
    decreases name.len(),
{
    if name.len() == 0 {
        Seq::empty()
    } else if name[0] == '_' {
        pascal_case(name.drop_first(), true)
    } else {
        seq![if capitalize {
            upper(name[0])
        } else {
            name[0]
        }] + pascal_case(name.drop_first(), false)
    }
}

/// The wire name of a field: its name without the underscores, each
/// character that followed one in upper case, the first character in lower case.
pub open spec fn camel_case(name: Seq<char>) -> Seq<char> {
    let pascal = pascal_case(name, true);
    if pascal.len() == 0 {
        pascal
    } else {
        seq![lower(pascal[0])] + pascal.drop_first()
    }
}

/// A name without underscores keeps its characters.
pub proof fn lemma_plain_name_is_kept(name: Seq<char>)
    requires
        forall|i: int| 0 <= i < name.len() ==> name[i] != '_',
    ensures
        pascal_case(name, false) == name,
    decreases name.len(),
{
    if name.len() > 0 {
        lemma_plain_name_is_kept(name.drop_first());
        assert(seq![name[0]] + name.drop_first() =~= name);
    } else {
        assert(name =~= Seq::<char>::empty());
    }
}

/// A name without underscores that starts with a lower-case letter is its
/// own wire name.
pub proof fn lemma_plain_name_is_its_wire_name(name: Seq<char>)
    requires
        name.len() > 0,
        'a' <= name[0] && name[0] <= 'z',
        forall|i: int| 0 <= i < name.len() ==> name[i] != '_',
    ensures
        camel_case(name) == name,
{
    lemma_plain_name_is_kept(name.drop_first());
    let pascal = pascal_case(name, true);
    assert(pascal =~= seq![upper(name[0])] + name.drop_first());
    assert(pascal.drop_first() =~= name.drop_first());
    assert(lower(upper(name[0])) == name[0]);
    assert(seq![name[0]] + name.drop_first() =~= name);
}

/// The keys under which the fields of the two request records are read are
/// the wire names of those fields.
pub proof fn lemma_keys_are_wire_names()
    ensures
        camel_case("root_name"@) == "rootName"@,
        camel_case("sources"@) == "sources"@,
        camel_case("bundle"@) == "bundle"@,
        camel_case("options"@) == "options"@,
{
    reveal_strlit("root_name");
    reveal_strlit("rootName");
    reveal_strlit("sources");
    reveal_strlit("bundle");
    reveal_strlit("options");
    lemma_plain_name_is_its_wire_name("sources"@);
    lemma_plain_name_is_its_wire_name("bundle"@);
    lemma_plain_name_is_its_wire_name("options"@);
    let name = "root_name"@;
    let name_tail = name.subrange(5, 9);
    assert(name_tail =~= seq!['n', 'a', 'm', 'e']);
    lemma_plain_name_is_kept(name_tail.drop_first());
    assert(name_tail.drop_first() =~= seq!['a', 'm', 'e']);
    assert(upper('n') == 'N');
    assert(pascal_case(name_tail, true) =~= seq!['N', 'a', 'm', 'e']);
    let s4 = name.subrange(4, 9);
    assert(s4.drop_first() =~= name_tail);
    assert(pascal_case(s4, false) =~= seq!['N', 'a', 'm', 'e']);
    let s3 = name.subrange(3, 9);
    assert(s3.drop_first() =~= s4);
    assert(pascal_case(s3, false) =~= seq!['t', 'N', 'a', 'm', 'e']);
    let s2 = name.subrange(2, 9);
    assert(s2.drop_first() =~= s3);
    assert(pascal_case(s2, false) =~= seq!['o', 't', 'N', 'a', 'm', 'e']);
    let s1 = name.subrange(1, 9);
    assert(s1.drop_first() =~= s2);
    assert(pascal_case(s1, false) =~= seq!['o', 'o', 't', 'N', 'a', 'm', 'e']);
    assert(name.drop_first() =~= s1);
    assert(upper('r') == 'R');
    assert(pascal_case(name, true) =~= seq!['R', 'o', 'o', 't', 'N', 'a', 'm', 'e']);
    assert(lower('R') == 'r');
    assert(camel_case(name) =~= seq!['r', 'o', 'o', 't', 'N', 'a', 'm', 'e']);
    assert("rootName"@ =~= seq!['r', 'o', 'o', 't', 'N', 'a', 'm', 'e']);
}

/// The fault of the field `key`: `expected` was wanted, `found` was there
/// (`None` where the field is missing).
pub open spec fn field_error(key: Seq<char>, expected: ValueKind, found: Option<ValueKind>)
    -> DecodeErrorView {
    DecodeErrorView { field: key, expected, found, path: seq![key] }
}

/// The shape of the field `key` of `payload`, where it has that field.
pub open spec fn found_kind(payload: Payload, key: Seq<char>) -> Option<ValueKind> {
    match payload.field_of(key) {
        Some(value) => Some(value.kind_of()),
        None => None,
    }
}

/// The characters of a text value; of any other value, none.
pub open spec fn text_of(value: Payload) -> Seq<char> {
    match value {
        Payload::Text(text) => text@,
        _ => Seq::empty(),
    }
}

/// The characters of each value in a map of text values.
pub open spec fn texts_in(values: Map<Seq<char>, Payload>) -> Map<Seq<char>, Seq<char>> {
    values.map_values(|value: Payload| text_of(value))
}

/// A required text field: the field must be there and be a text.
pub open spec fn required_text(payload: Payload, key: Seq<char>) -> Result<
    Seq<char>,
    DecodeErrorView,
> {
    match payload.field_of(key) {
        Some(Payload::Text(text)) => Ok(text@),
        _ => Err(field_error(key, ValueKind::Text, found_kind(payload, key))),
    }
}

/// A required flag field: the field must be there and be a flag.
pub open spec fn required_flag(payload: Payload, key: Seq<char>) -> Result<bool, DecodeErrorView> {
    match payload.field_of(key) {
        Some(Payload::Flag(flag)) => Ok(flag),
        _ => Err(field_error(key, ValueKind::Flag, found_kind(payload, key))),
    }
}

/// An optional text field: missing or null gives `None`, a text gives it,
/// anything else is a fault.
pub open spec fn optional_text(payload: Payload, key: Seq<char>) -> Result<
    Option<Seq<char>>,
    DecodeErrorView,
> {
    match payload.field_of(key) {
        None => Ok(None),
        Some(Payload::Null) => Ok(None),
        Some(Payload::Text(text)) => Ok(Some(text@)),
        _ => Err(field_error(key, ValueKind::Text, found_kind(payload, key))),
    }
}

/// Whether every value of `pairs` is a text.
pub open spec fn all_text(pairs: Seq<(Seq<char>, Payload)>) -> bool {
    forall|k: int| 0 <= k < pairs.len() ==> (#[trigger] pairs[k]).1 is Text
}

/// Whether position `i` holds the first value of `pairs` that is no text.
pub open spec fn is_first_non_text(pairs: Seq<(Seq<char>, Payload)>, i: int) -> bool {
    &&& 0 <= i < pairs.len()
    &&& !(pairs[i].1 is Text)
    &&& forall|k: int| 0 <= k < i ==> (#[trigger] pairs[k]).1 is Text
}

/// A record of texts, read as a map from names to texts. The first entry, in
/// the record's order, that is no text is the fault; its name ends the path.
pub open spec fn text_map_of(fields: TextMap<Payload>, key: Seq<char>) -> Result<
    Map<Seq<char>, Seq<char>>,
    DecodeErrorView,
> {
    let pairs = fields.pairs();
    if all_text(pairs) {
        Ok(texts_in(fields@))
    } else {
        let i = choose|i: int| is_first_non_text(pairs, i);
        Err(
            DecodeErrorView {
                field: key,
                expected: ValueKind::Text,
                found: Some(pairs[i].1.kind_of()),
                path: seq![key, pairs[i].0],
            },
        )
    }
}

/// A required field that maps names to texts.
pub open spec fn required_text_map(payload: Payload, key: Seq<char>) -> Result<
    Map<Seq<char>, Seq<char>>,
    DecodeErrorView,
> {
    match payload.field_of(key) {
        Some(Payload::Record(fields)) => text_map_of(fields, key),
        _ => Err(field_error(key, ValueKind::Record, found_kind(payload, key))),
    }
}

/// An optional field that maps names to texts: missing or null gives `None`.
pub open spec fn optional_text_map(payload: Payload, key: Seq<char>) -> Result<
    Option<Map<Seq<char>, Seq<char>>>,
    DecodeErrorView,
> {
    match payload.field_of(key) {
        None => Ok(None),
        Some(Payload::Null) => Ok(None),
        Some(Payload::Record(fields)) => match text_map_of(fields, key) {
            Ok(texts) => Ok(Some(texts)),
            Err(e) => Err(e),
        },
        _ => Err(field_error(key, ValueKind::Record, found_kind(payload, key))),
    }
}

/// What decoding the compile arguments gives for `payload`.
pub open spec fn compile_args_of(payload: Payload) -> Result<CompileArgsView, DecodeErrorView> {
    if payload.field_of("rootName"@) is None {
        Err(field_error("rootName"@, ValueKind::Text, None))
    } else if payload.field_of("bundle"@) is None {
        Err(field_error("bundle"@, ValueKind::Flag, None))
    } else {
        match required_text(payload, "rootName"@) {
            Err(e) => Err(e),
            Ok(root_name) => match optional_text_map(payload, "sources"@) {
                Err(e) => Err(e),
                Ok(sources) => match required_flag(payload, "bundle"@) {
                    Err(e) => Err(e),
                    Ok(bundle) => match optional_text(payload, "options"@) {
                        Err(e) => Err(e),
                        Ok(options) => Ok(CompileArgsView { root_name, sources, bundle, options }),
                    },
                },
            },
        }
    }
}

/// What decoding the transpile arguments gives for `payload`.
pub open spec fn transpile_args_of(payload: Payload) -> Result<
    TranspileArgsView,
    DecodeErrorView,
> {
    match required_text_map(payload, "sources"@) {
        Err(e) => Err(e),
        Ok(sources) => match optional_text(payload, "options"@) {
            Err(e) => Err(e),
            Ok(options) => Ok(TranspileArgsView { sources, options }),
        },
    }
}

/// What decoding gives for `payload` under `schema`.
pub open spec fn typed_args_of(schema: ArgSchema, payload: Payload) -> Result<
    TypedArgsView,
    DecodeErrorView,
> {
    match schema {
        ArgSchema::Compile => match compile_args_of(payload) {
            Ok(args) => Ok(TypedArgsView::Compile(args)),
            Err(e) => Err(e),
        },
        ArgSchema::Transpile => match transpile_args_of(payload) {
            Ok(args) => Ok(TypedArgsView::Transpile(args)),
            Err(e) => Err(e),
        },
    }
}

/// The fault of the field `key`.
fn field_fault(key: &str, expected: ValueKind, found: Option<ValueKind>) -> (e: DecodeError)
    ensures
        e@ == field_error(key@, expected, found),
{
    let mut path: Vec<String> = Vec::new();
    path.push(owned_text(key));
    let e = DecodeError { field: owned_text(key), expected, found, path };
    assert(e@.path =~= seq![key@]);
    e
}

/// The shape of the field `key` of `payload`, where it has that field.
fn kind_found(payload: &Payload, key: &str) -> (found: Option<ValueKind>)
    ensures
        found == found_kind(*payload, key@),
{
    match payload.field(key) {
        Some(value) => Some(value.kind()),
        None => None,
    }
}

/// Reads a required text field.
pub fn read_required_text(payload: &Payload, key: &str) -> (read: Result<String, DecodeError>)
    ensures
        match read {
            Ok(text) => required_text(*payload, key@) == Ok::<Seq<char>, DecodeErrorView>(text@),
            Err(e) => required_text(*payload, key@) == Err::<Seq<char>, DecodeErrorView>(e@),
        },
{
    match payload.field(key) {
        Some(Payload::Text(text)) => Ok(text.clone()),
        _ => Err(field_fault(key, ValueKind::Text, kind_found(payload, key))),
    }
}

/// Reads a required flag field.
pub fn read_required_flag(payload: &Payload, key: &str) -> (read: Result<bool, DecodeError>)
    ensures
        match read {
            Ok(flag) => required_flag(*payload, key@) == Ok::<bool, DecodeErrorView>(flag),
            Err(e) => required_flag(*payload, key@) == Err::<bool, DecodeErrorView>(e@),
        },
{
    match payload.field(key) {
        Some(Payload::Flag(flag)) => Ok(*flag),
        _ => Err(field_fault(key, ValueKind::Flag, kind_found(payload, key))),
    }
}

/// Reads an optional text field.
pub fn read_optional_text(payload: &Payload, key: &str) -> (read: Result<
    Option<String>,
    DecodeError,
>)
    ensures
        match read {
            Ok(text) => optional_text(*payload, key@) == Ok::<Option<Seq<char>>, DecodeErrorView>(
                optional_view(text),
            ),
            Err(e) => optional_text(*payload, key@) == Err::<Option<Seq<char>>, DecodeErrorView>(
                e@,
            ),
        },
{
    match payload.field(key) {
        None => Ok(None),
        Some(Payload::Null) => Ok(None),
        Some(Payload::Text(text)) => Ok(Some(text.clone())),
        _ => Err(field_fault(key, ValueKind::Text, kind_found(payload, key))),
    }
}

/// At most one position holds the first value that is no text.
proof fn lemma_first_non_text_is_unique(pairs: Seq<(Seq<char>, Payload)>, i: int, j: int)
    requires
        is_first_non_text(pairs, i),
        is_first_non_text(pairs, j),
    ensures
        i == j,
{
    if i < j {
        assert(pairs[i].1 is Text);
    } else if j < i {
        assert(pairs[j].1 is Text);
    }
}

/// Reads a record of texts as a map from names to texts.
pub fn read_text_map(fields: &TextMap<Payload>, key: &str) -> (read: Result<
    TextMap<String>,
    DecodeError,
>)
    ensures
        match read {
            Ok(texts) => text_map_of(*fields, key@) == Ok::<
                Map<Seq<char>, Seq<char>>,
                DecodeErrorView,
            >(text_views(texts@)),
            Err(e) => text_map_of(*fields, key@) == Err::<
                Map<Seq<char>, Seq<char>>,
                DecodeErrorView,
            >(e@),
        },
{
    let n = fields.len();
    let ghost pairs = fields.pairs();
    let mut texts: TextMap<String> = TextMap::new();
    let mut i: usize = 0;
    assert(pairs.take(0) =~= Seq::<(Seq<char>, Payload)>::empty());
    assert(text_views(texts@) =~= texts_in(as_map(pairs.take(0))));
    while i < n
        invariant
            i <= n,
            n == pairs.len(),
            pairs == fields.pairs(),
            keys_differ(pairs),
            forall|k: int| 0 <= k < i ==> (#[trigger] pairs[k]).1 is Text,
            text_views(texts@) == texts_in(as_map(pairs.take(i as int))),
        decreases n - i,
    {
        let entry = fields.entry_at(i);
        let (name, value) = entry.unwrap();
        match value {
            Payload::Text(text) => {
                proof {
                    let head = pairs.take(i as int);
                    assert(pairs.take(i + 1) =~= head.push(pairs[i as int]));
                    assert(keys_differ(head)) by {
                        assert forall|a: int, b: int| 0 <= a < b < head.len() implies (
                        #[trigger] head[a]).0 != (#[trigger] head[b]).0 by {
                            assert(pairs[a].0 != pairs[b].0);
                        }
                    }
                    assert(!has_key(head, pairs[i as int].0)) by {
                        if has_key(head, pairs[i as int].0) {
                            let a = choose|a: int|
                                0 <= a < head.len() && (#[trigger] head[a]).0 == pairs[i as int].0;
                            assert(pairs[a].0 != pairs[i as int].0);
                        }
                    }
                    lemma_push_is_insert(head, pairs[i as int].0, pairs[i as int].1);
                    assert(texts_in(as_map(head).insert(pairs[i as int].0, pairs[i as int].1))
                        =~= texts_in(as_map(head)).insert(pairs[i as int].0, text@));
                    assert(text_views(texts@.insert(name@, *text)) =~= text_views(texts@).insert(
                        name@,
                        text@,
                    ));
                }
                texts.insert(name.clone(), text.clone());
            },
            _ => {
                let mut path: Vec<String> = Vec::new();
                path.push(owned_text(key));
                path.push(name.clone());
                let e = DecodeError {
                    field: owned_text(key),
                    expected: ValueKind::Text,
                    found: Some(value.kind()),
                    path,
                };
                proof {
                    assert(e@.path =~= seq![key@, pairs[i as int].0]);
                    assert(is_first_non_text(pairs, i as int));
                    assert(!all_text(pairs));
                    let chosen = choose|c: int| is_first_non_text(pairs, c);
                    lemma_first_non_text_is_unique(pairs, i as int, chosen);
                }
                return Err(e);
            },
        }
        i += 1;
    }
    proof {
        assert(pairs.take(n as int) =~= pairs);
        assert(all_text(pairs));
    }
    Ok(texts)
}

/// Reads a required field that maps names to texts.
pub fn read_required_text_map(payload: &Payload, key: &str) -> (read: Result<
    TextMap<String>,
    DecodeError,
>)
    ensures
        match read {
            Ok(texts) => required_text_map(*payload, key@) == Ok::<
                Map<Seq<char>, Seq<char>>,
                DecodeErrorView,
            >(text_views(texts@)),
            Err(e) => required_text_map(*payload, key@) == Err::<
                Map<Seq<char>, Seq<char>>,
                DecodeErrorView,
            >(e@),
        },
{
    match payload.field(key) {
        Some(Payload::Record(fields)) => read_text_map(fields, key),
        _ => Err(field_fault(key, ValueKind::Record, kind_found(payload, key))),
    }
}

/// Reads an optional field that maps names to texts.
pub fn read_optional_text_map(payload: &Payload, key: &str) -> (read: Result<
    Option<TextMap<String>>,
    DecodeError,
>)
    ensures
        match read {
            Ok(Some(texts)) => optional_text_map(*payload, key@) == Ok::<
                Option<Map<Seq<char>, Seq<char>>>,
                DecodeErrorView,
            >(Some(text_views(texts@))),
            Ok(None) => optional_text_map(*payload, key@) == Ok::<
                Option<Map<Seq<char>, Seq<char>>>,
                DecodeErrorView,
            >(None),
            Err(e) => optional_text_map(*payload, key@) == Err::<
                Option<Map<Seq<char>, Seq<char>>>,
                DecodeErrorView,
            >(e@),
        },
{
    match payload.field(key) {
        None => Ok(None),
        Some(Payload::Null) => Ok(None),
        Some(Payload::Record(fields)) => match read_text_map(fields, key) {
            Ok(texts) => Ok(Some(texts)),
            Err(e) => Err(e),
        },
        _ => Err(field_fault(key, ValueKind::Record, kind_found(payload, key))),
    }
}

/// Decodes the arguments of the compile op: `rootName` (text, required),
/// `sources` (map of texts, optional), `bundle` (flag, required) and
/// `options` (text, optional).
pub fn decode_compile(payload: &Payload) -> (decoded: Result<CompileArgs, DecodeError>)
    ensures
        match decoded {
            Ok(args) => compile_args_of(*payload) == Ok::<CompileArgsView, DecodeErrorView>(args@),
            Err(e) => compile_args_of(*payload) == Err::<CompileArgsView, DecodeErrorView>(e@),
        },
{
    if payload.field("rootName").is_none() {
        return Err(field_fault("rootName", ValueKind::Text, None));
    }
    if payload.field("bundle").is_none() {
        return Err(field_fault("bundle", ValueKind::Flag, None));
    }
    let root_name = match read_required_text(payload, "rootName") {
        Ok(text) => text,
        Err(e) => {
            return Err(e);
        },
    };
    let sources = match read_optional_text_map(payload, "sources") {
        Ok(texts) => texts,
        Err(e) => {
            return Err(e);
        },
    };
    let bundle = match read_required_flag(payload, "bundle") {
        Ok(flag) => flag,
        Err(e) => {
            return Err(e);
        },
    };
    let options = match read_optional_text(payload, "options") {
        Ok(text) => text,
        Err(e) => {
            return Err(e);
        },
    };
    Ok(CompileArgs { root_name, sources, bundle, options })
}

/// Decodes the arguments of the transpile op: `sources` (map of texts,
/// required) and `options` (text, optional).
pub fn decode_transpile(payload: &Payload) -> (decoded: Result<TranspileArgs, DecodeError>)
    ensures
        match decoded {
            Ok(args) => transpile_args_of(*payload) == Ok::<TranspileArgsView, DecodeErrorView>(
                args@,
            ),
            Err(e) => transpile_args_of(*payload) == Err::<TranspileArgsView, DecodeErrorView>(e@),
        },
{
    let sources = match read_required_text_map(payload, "sources") {
        Ok(texts) => texts,
        Err(e) => {
            return Err(e);
        },
    };
    let options = match read_optional_text(payload, "options") {
        Ok(text) => text,
        Err(e) => {
            return Err(e);
        },
    };
    Ok(TranspileArgs { sources, options })
}

/// Decodes `payload` into the request record that `schema` names.
pub fn decode(schema: ArgSchema, payload: &Payload) -> (decoded: Result<TypedArgs, DecodeError>)
    ensures
        match decoded {
            Ok(args) => typed_args_of(schema, *payload) == Ok::<TypedArgsView, DecodeErrorView>(
                args@,
            ),
            Err(e) => typed_args_of(schema, *payload) == Err::<TypedArgsView, DecodeErrorView>(e@),
        },
{
    match schema {
        ArgSchema::Compile => match decode_compile(payload) {
            Ok(args) => Ok(TypedArgs::Compile(args)),
            Err(e) => Err(e),
        },
        ArgSchema::Transpile => match decode_transpile(payload) {
            Ok(args) => Ok(TypedArgs::Transpile(args)),
            Err(e) => Err(e),
        },
    }
}

/// A payload that lacks the first required field of the compile arguments is
/// refused, and the fault names that field as missing, whatever else the
/// payload holds.
pub proof fn lemma_compile_names_missing_root_name(payload: Payload)
    requires
        payload.field_of("rootName"@) is None,
    ensures
        compile_args_of(payload) == Err::<CompileArgsView, DecodeErrorView>(
            field_error("rootName"@, ValueKind::Text, None),
        ),
{
}

/// A payload that has `rootName` and lacks `bundle` is refused, and the fault
/// names `bundle` as missing.
pub proof fn lemma_compile_names_missing_bundle(payload: Payload)
    requires
        payload.field_of("rootName"@) is Some,
        payload.field_of("bundle"@) is None,
    ensures
        compile_args_of(payload) == Err::<CompileArgsView, DecodeErrorView>(
            field_error("bundle"@, ValueKind::Flag, None),
        ),
{
}

/// A payload that lacks the required field of the transpile arguments is
/// refused, and the fault names that field as missing.
pub proof fn lemma_transpile_names_missing_sources(payload: Payload)
    requires
        payload.field_of("sources"@) is None,
    ensures
        transpile_args_of(payload) == Err::<TranspileArgsView, DecodeErrorView>(
            field_error("sources"@, ValueKind::Record, None),
        ),
{
}

/// With both required fields of the compile arguments well formed, and each
/// optional field well formed or left out, decoding succeeds; an optional
/// field that is left out takes its default, `None`.
pub proof fn lemma_compile_defaults(payload: Payload)
    requires
        required_text(payload, "rootName"@) is Ok,
        required_flag(payload, "bundle"@) is Ok,
        optional_text_map(payload, "sources"@) is Ok,
        optional_text(payload, "options"@) is Ok,
    ensures
        compile_args_of(payload) == Ok::<CompileArgsView, DecodeErrorView>(
            CompileArgsView {
                root_name: required_text(payload, "rootName"@)->Ok_0,
                sources: optional_text_map(payload, "sources"@)->Ok_0,
                bundle: required_flag(payload, "bundle"@)->Ok_0,
                options: optional_text(payload, "options"@)->Ok_0,
            },
        ),
        payload.field_of("sources"@) is None ==> compile_args_of(payload)->Ok_0.sources is None,
        payload.field_of("options"@) is None ==> compile_args_of(payload)->Ok_0.options is None,
{
}

/// With the required field of the transpile arguments well formed, and the
/// optional field well formed or left out, decoding succeeds; the optional
/// field, left out, takes its default, `None`.
pub proof fn lemma_transpile_defaults(payload: Payload)
    requires
        required_text_map(payload, "sources"@) is Ok,
        optional_text(payload, "options"@) is Ok,
    ensures
        transpile_args_of(payload) == Ok::<TranspileArgsView, DecodeErrorView>(
            TranspileArgsView {
                sources: required_text_map(payload, "sources"@)->Ok_0,
                options: optional_text(payload, "options"@)->Ok_0,
            },
        ),
        payload.field_of("options"@) is None ==> transpile_args_of(payload)->Ok_0.options is None,
{
}

} // verus!
