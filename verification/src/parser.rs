//! The structural indexer: one file's text is parsed into a model of its
//! declarations, which verified walks enumerate and extract. Parsing and
//! source rendering are done by the `syn` and `quote` crates behind
//! trusted conversions; everything after them is verified.

use vstd::prelude::*;
use vstd::string::*;
use crate::text::{contains_sub, contains_text, eq_text, lines_spec, split_lines};

verus! {

/// One function or method: its identifier, the source rendering of each
/// parameter, the source rendering of its return type (`None` when
/// absent), and its re-rendered source text.
pub struct FnSig {
    pub name: String,
    pub params: Vec<String>,
    pub ret: Option<String>,
    pub source: String,
}

/// The mathematical form of a function signature.
pub struct FnSigV {
    pub name: Seq<char>,
    pub params: Seq<Seq<char>>,
    pub ret: Option<Seq<char>>,
    pub source: Seq<char>,
}

impl DeepView for FnSig {
    type V = FnSigV;

    open spec fn deep_view(&self) -> FnSigV {
        FnSigV {
            name: self.name@,
            params: self.params.deep_view(),
            ret: self.ret.deep_view(),
            source: self.source@,
        }
    }
}

/// One member of an implementation block: a method, or anything else.
pub enum ImplMember {
    Method(FnSig),
    Other,
}

/// The mathematical form of an implementation-block member.
pub enum ImplMemberV {
    Method(FnSigV),
    Other,
}

impl DeepView for ImplMember {
    type V = ImplMemberV;

    open spec fn deep_view(&self) -> ImplMemberV {
        match self {
            ImplMember::Method(f) => ImplMemberV::Method(f.deep_view()),
            ImplMember::Other => ImplMemberV::Other,
        }
    }
}

/// One top-level item of a parsed source file, reduced to what the
/// indexer reads.
pub enum RsItem {
    Function(FnSig),
    ImplBlock { self_type: String, methods: Vec<ImplMember> },
    StructDecl { name: String },
    EnumDecl { name: String, variants: Vec<String> },
    Other,
}

/// The mathematical form of a top-level item.
pub enum RsItemV {
    Function(FnSigV),
    ImplBlock { self_type: Seq<char>, methods: Seq<ImplMemberV> },
    StructDecl { name: Seq<char> },
    EnumDecl { name: Seq<char>, variants: Seq<Seq<char>> },
    Other,
}

impl DeepView for RsItem {
    type V = RsItemV;

    open spec fn deep_view(&self) -> RsItemV {
        match self {
            RsItem::Function(f) => RsItemV::Function(f.deep_view()),
            RsItem::ImplBlock { self_type, methods } => RsItemV::ImplBlock {
                self_type: self_type@,
                methods: methods.deep_view(),
            },
            RsItem::StructDecl { name } => RsItemV::StructDecl { name: name@ },
            RsItem::EnumDecl { name, variants } => RsItemV::EnumDecl {
                name: name@,
                variants: variants.deep_view(),
            },
            RsItem::Other => RsItemV::Other,
        }
    }
}

#[verifier::external_type_specification]
#[verifier::external_body]
pub struct ExSynItem(syn::Item);

#[verifier::external_type_specification]
#[verifier::external_body]
pub struct ExSynSignature(syn::Signature);

#[verifier::external_type_specification]
#[verifier::external_body]
pub struct ExSynItemImpl(syn::ItemImpl);

#[verifier::external_type_specification]
#[verifier::external_body]
pub struct ExSynItemEnum(syn::ItemEnum);

/// What parsing a source text yields: its items in declaration order, or
/// the grammar diagnostic. `syn::parse_file` and `quote`'s rendering
/// depend on the text alone, so the outcome is a function of the text.
pub uninterp spec fn parse_of(s: Seq<char>) -> Result<Seq<RsItemV>, Seq<char>>;

/// Relies on quote's `ToTokens` rendering of one `syn` signature: the
/// identifier, each parameter's source form, and the return type's source
/// form when one is written.
#[verifier::external_body]
fn sig_to_model(sig: &syn::Signature, source: String) -> FnSig {
    FnSig {
        name: sig.ident.to_string(),
        params: sig.inputs.iter().map(|a| quote::ToTokens::to_token_stream(a).to_string()).collect(),
        ret: match &sig.output {
            syn::ReturnType::Default => None,
            syn::ReturnType::Type(_, t) => Some(quote::ToTokens::to_token_stream(t).to_string()),
        },
        source,
    }
}

/// Relies on quote's `ToTokens` rendering of an implementation block: its
/// self type and each member, methods converted one for one.
#[verifier::external_body]
fn impl_to_model(node: &syn::ItemImpl) -> RsItem {
    let self_type = quote::ToTokens::to_token_stream(&node.self_ty).to_string();
    let methods = node.items.iter().map(|it| match it {
        syn::ImplItem::Fn(m) => ImplMember::Method(
            sig_to_model(&m.sig, quote::ToTokens::to_token_stream(m).to_string()),
        ),
        _ => ImplMember::Other,
    }).collect();
    RsItem::ImplBlock { self_type, methods }
}

/// Relies on syn's enum item: its identifier and its variants' identifiers,
/// in declaration order.
#[verifier::external_body]
fn enum_to_model(node: &syn::ItemEnum) -> RsItem {
    RsItem::EnumDecl {
        name: node.ident.to_string(),
        variants: node.variants.iter().map(|v| v.ident.to_string()).collect(),
    }
}

/// Relies on syn's item enum: each variant the indexer reads is converted
/// one for one, everything else becomes an opaque entry.
#[verifier::external_body]
fn item_to_model(item: syn::Item) -> RsItem {
    match item {
        syn::Item::Fn(f) => RsItem::Function(
            sig_to_model(&f.sig, quote::ToTokens::to_token_stream(&f).to_string()),
        ),
        syn::Item::Impl(i) => impl_to_model(&i),
        syn::Item::Struct(s) => RsItem::StructDecl { name: s.ident.to_string() },
        syn::Item::Enum(e) => enum_to_model(&e),
        _ => RsItem::Other,
    }
}

/// Relies on `syn::parse_file`: valid source text parses into its items in
/// declaration order; invalid text yields the grammar diagnostic. The
/// result depends on the text alone, so it is named by `parse_of`.
#[verifier::external_body]
fn parse_items(content: &str) -> (r: Result<Vec<RsItem>, String>)
    ensures
        match r {
            Ok(items) => parse_of(content@) matches Ok(m) && items.deep_view() == m,
            Err(e) => parse_of(content@) matches Err(m) && e@ == m,
        },
{
    match syn::parse_file(content) {
        Ok(ast) => Ok(ast.items.into_iter().map(item_to_model).collect()),
        Err(e) => Err(e.to_string()),
    }
}

/// Why an indexing operation failed.
#[derive(Debug, Clone)]
pub enum ParserError {
    Grammar { message: String },
    FunctionNotFound { name: String },
    ItemNotFound { name: String },
}

/// The mathematical form of an indexing error.
pub enum ParserErrorV {
    Grammar { message: Seq<char> },
    FunctionNotFound { name: Seq<char> },
    ItemNotFound { name: Seq<char> },
}

impl View for ParserError {
    type V = ParserErrorV;

    open spec fn view(&self) -> ParserErrorV {
        match self {
            ParserError::Grammar { message } => ParserErrorV::Grammar { message: message@ },
            ParserError::FunctionNotFound { name } => ParserErrorV::FunctionNotFound {
                name: name@,
            },
            ParserError::ItemNotFound { name } => ParserErrorV::ItemNotFound { name: name@ },
        }
    }
}

impl ParserErrorV {
    /// The diagnostic text for each indexing error.
    pub open spec fn message_spec(self) -> Seq<char> {
        match self {
            ParserErrorV::Grammar { message } => "Failed to parse Rust file: "@ + message,
            ParserErrorV::FunctionNotFound { name } => "Function '"@ + name + "' not found"@,
            ParserErrorV::ItemNotFound { name } => "Item '"@ + name + "' not found"@,
        }
    }
}

impl ParserError {
    /// The diagnostic text reported to the caller.
    pub fn message(&self) -> (r: String)
        ensures
            r@ == self@.message_spec(),
    {
        match self {
            ParserError::Grammar { message } => {
                let mut out = "Failed to parse Rust file: ".to_owned();
                out.append(message.as_str());
                out
            },
            ParserError::FunctionNotFound { name } => {
                let mut out = "Function '".to_owned();
                out.append(name.as_str());
                out.append("' not found");
                proof {
                    assert(out@ =~= "Function '"@ + name@ + "' not found"@);
                }
                out
            },
            ParserError::ItemNotFound { name } => {
                let mut out = "Item '".to_owned();
                out.append(name.as_str());
                out.append("' not found");
                proof {
                    assert(out@ =~= "Item '"@ + name@ + "' not found"@);
                }
                out
            },
        }
    }
}

/// The parts joined with a comma and a space between each two.
pub open spec fn comma_join(parts: Seq<Seq<char>>) -> Seq<char>
    decreases parts.len(),
{
    if parts.len() == 0 {
        Seq::empty()
    } else if parts.len() == 1 {
        parts.last()
    } else {
        comma_join(parts.drop_last()) + ", "@ + parts.last()
    }
}

/// The parts joined with `, ` between each two.
pub fn join_comma(parts: &Vec<String>) -> (r: String)
    ensures
        r@ == comma_join(parts.deep_view()),
{
    let ghost dv = parts.deep_view();
    let mut out = String::new();
    let n = parts.len();
    let mut i: usize = 0;
    proof {
        assert(dv.subrange(0, 0) =~= Seq::<Seq<char>>::empty());
        assert(out@ =~= comma_join(dv.subrange(0, 0)));
    }
    while i < n
        invariant
            0 <= i <= n,
            n == parts@.len(),
            dv == parts.deep_view(),
            dv.len() == n,
            out@ == comma_join(dv.subrange(0, i as int)),
        decreases n - i,
    {
        proof {
            assert(parts@[i as int]@ == dv[i as int]);
            assert(dv.subrange(0, i + 1).drop_last() =~= dv.subrange(0, i as int));
            assert(dv.subrange(0, i + 1).last() == dv[i as int]);
        }
        if i > 0 {
            out.append(", ");
        }
        out.append(parts[i].as_str());
        proof {
            if i == 0 {
                assert(dv.subrange(0, 1).len() == 1);
                assert(out@ =~= comma_join(dv.subrange(0, 1)));
            } else {
                assert(out@ =~= comma_join(dv.subrange(0, i as int)) + ", "@ + dv[i as int]);
            }
        }
        i = i + 1;
    }
    proof {
        assert(dv.subrange(0, n as int) =~= dv);
    }
    out
}

/// The rendering of a return type: a unit token when none is written.
pub open spec fn ret_text(ret: Option<Seq<char>>) -> Seq<char> {
    match ret {
        Option::Some(t) => t,
        Option::None => "()"@,
    }
}

/// The listing entry for a top-level function.
pub open spec fn fn_entry(f: FnSigV) -> Seq<char> {
    "fn "@ + f.name + "("@ + comma_join(f.params) + ") -> "@ + ret_text(f.ret)
}

/// The listing entry for a method of an implementation block.
pub open spec fn method_entry(self_type: Seq<char>, f: FnSigV) -> Seq<char> {
    "impl "@ + self_type + "::"@ + f.name + "("@ + comma_join(f.params) + ") -> "@ + ret_text(f.ret)
}

/// The methods among an implementation block's members, in order.
pub open spec fn methods_of(ms: Seq<ImplMemberV>) -> Seq<FnSigV>
    decreases ms.len(),
{
    if ms.len() == 0 {
        Seq::empty()
    } else {
        let rest = methods_of(ms.drop_last());
        match ms.last() {
            ImplMemberV::Method(f) => rest.push(f),
            ImplMemberV::Other => rest,
        }
    }
}

/// The listing entries one item contributes: one for a function, one per
/// method for an implementation block, none otherwise.
pub open spec fn item_fn_entries(it: RsItemV) -> Seq<Seq<char>> {
    match it {
        RsItemV::Function(f) => seq![fn_entry(f)],
        RsItemV::ImplBlock { self_type, methods } => methods_of(methods).map_values(
            |f: FnSigV| method_entry(self_type, f),
        ),
        _ => Seq::<Seq<char>>::empty(),
    }
}

/// Every function listing entry, in declaration order: outer items first,
/// and for each implementation block its methods in order.
pub open spec fn fn_listing(items: Seq<RsItemV>) -> Seq<Seq<char>>
    decreases items.len(),
{
    if items.len() == 0 {
        Seq::empty()
    } else {
        fn_listing(items.drop_last()) + item_fn_entries(items.last())
    }
}

/// The struct names among the items, in declaration order.
pub open spec fn struct_listing(items: Seq<RsItemV>) -> Seq<Seq<char>>
    decreases items.len(),
{
    if items.len() == 0 {
        Seq::empty()
    } else {
        let rest = struct_listing(items.drop_last());
        match items.last() {
            RsItemV::StructDecl { name } => rest.push(name),
            _ => rest,
        }
    }
}

/// The listing entry for an enum: its name and its variant list.
pub open spec fn enum_entry(name: Seq<char>, variants: Seq<Seq<char>>) -> Seq<char> {
    name + " { "@ + comma_join(variants) + " }"@
}

/// The enum entries among the items, in declaration order.
pub open spec fn enum_listing(items: Seq<RsItemV>) -> Seq<Seq<char>>
    decreases items.len(),
{
    if items.len() == 0 {
        Seq::empty()
    } else {
        let rest = enum_listing(items.drop_last());
        match items.last() {
            RsItemV::EnumDecl { name, variants } => rest.push(enum_entry(name, variants)),
            _ => rest,
        }
    }
}

/// The source of the first top-level function named `name`, if any.
pub open spec fn find_top_fn(items: Seq<RsItemV>, name: Seq<char>) -> Option<Seq<char>>
    decreases items.len(),
{
    if items.len() == 0 {
        Option::<Seq<char>>::None
    } else {
        match items.first() {
            RsItemV::Function(f) => if f.name == name {
                Option::Some(f.source)
            } else {
                find_top_fn(items.drop_first(), name)
            },
            _ => find_top_fn(items.drop_first(), name),
        }
    }
}

/// The source of the first method named `name` among the members, if any.
pub open spec fn find_in_members(ms: Seq<ImplMemberV>, name: Seq<char>) -> Option<Seq<char>>
    decreases ms.len(),
{
    if ms.len() == 0 {
        Option::<Seq<char>>::None
    } else {
        match ms.first() {
            ImplMemberV::Method(f) => if f.name == name {
                Option::Some(f.source)
            } else {
                find_in_members(ms.drop_first(), name)
            },
            ImplMemberV::Other => find_in_members(ms.drop_first(), name),
        }
    }
}

/// The source of the first method named `name` across the implementation
/// blocks, in declaration order.
pub open spec fn find_method(items: Seq<RsItemV>, name: Seq<char>) -> Option<Seq<char>>
    decreases items.len(),
{
    if items.len() == 0 {
        Option::<Seq<char>>::None
    } else {
        match items.first() {
            RsItemV::ImplBlock { self_type, methods } => {
                let found = find_in_members(methods, name);
                if found is Some {
                    found
                } else {
                    find_method(items.drop_first(), name)
                }
            },
            _ => find_method(items.drop_first(), name),
        }
    }
}

/// What extraction yields: the first top-level function named `name`,
/// else the first method of that name, else nothing.
pub open spec fn extract_spec(items: Seq<RsItemV>, name: Seq<char>) -> Option<Seq<char>> {
    match find_top_fn(items, name) {
        Option::Some(src) => Option::Some(src),
        Option::None => find_method(items, name),
    }
}

/// Does one item declare a function or method with this exact name?
pub open spec fn item_has_fn_named(it: RsItemV, name: Seq<char>) -> bool {
    match it {
        RsItemV::Function(f) => f.name == name,
        RsItemV::ImplBlock { self_type, methods } => exists|j: int|
            0 <= j < methods.len() && (#[trigger] methods[j] matches ImplMemberV::Method(f)
                && f.name == name),
        _ => false,
    }
}

/// Extraction of an absent name yields nothing: when no top-level
/// function and no method carries the name, the lookup fails.
pub proof fn lemma_extract_absent(items: Seq<RsItemV>, name: Seq<char>)
    requires
        forall|i: int| 0 <= i < items.len() ==> !item_has_fn_named(items[i], name),
    ensures
        extract_spec(items, name) is None,
    decreases items.len(),
{
    if items.len() > 0 {
        let t = items.drop_first();
        assert(items[0] == items.first());
        assert forall|i: int| 0 <= i < t.len() implies !item_has_fn_named(t[i], name) by {
            assert(t[i] == items[i + 1]);
        }
        lemma_extract_absent(t, name);
        match items.first() {
            RsItemV::ImplBlock { self_type, methods } => {
                assert forall|j: int|
                    0 <= j < methods.len() implies !(#[trigger] methods[j] matches ImplMemberV::Method(f)
                    && f.name == name) by {
                    assert(!item_has_fn_named(items[0], name));
                }
                lemma_find_in_members_absent(methods, name);
            },
            _ => {},
        }
    }
}

proof fn lemma_find_in_members_absent(ms: Seq<ImplMemberV>, name: Seq<char>)
    requires
        forall|j: int|
            0 <= j < ms.len() ==> !(#[trigger] ms[j] matches ImplMemberV::Method(f) && f.name
                == name),
    ensures
        find_in_members(ms, name) is None,
    decreases ms.len(),
{
    if ms.len() > 0 {
        let t = ms.drop_first();
        assert forall|j: int|
            0 <= j < t.len() implies !(#[trigger] t[j] matches ImplMemberV::Method(f) && f.name
            == name) by {
            assert(t[j] == ms[j + 1]);
        }
        lemma_find_in_members_absent(t, name);
    }
}

/// A model holding one top-level function and one implementation block
/// with two methods lists exactly three entries: the outer function
/// first, then the two methods in declaration order.
pub proof fn lemma_listing_shape(f: FnSigV, st: Seq<char>, m1: FnSigV, m2: FnSigV)
    ensures
        ({
            let items = seq![
                RsItemV::Function(f),
                RsItemV::ImplBlock {
                    self_type: st,
                    methods: seq![ImplMemberV::Method(m1), ImplMemberV::Method(m2)],
                },
            ];
            fn_listing(items) == seq![fn_entry(f), method_entry(st, m1), method_entry(st, m2)]
        }),
{
    let ms = seq![ImplMemberV::Method(m1), ImplMemberV::Method(m2)];
    let items = seq![RsItemV::Function(f), RsItemV::ImplBlock { self_type: st, methods: ms }];
    let ms1 = ms.drop_last();
    assert(ms1 =~= seq![ImplMemberV::Method(m1)]);
    assert(ms1.drop_last() =~= Seq::<ImplMemberV>::empty());
    assert(ms1.last() == ImplMemberV::Method(m1));
    assert(methods_of(ms1.drop_last()) =~= Seq::<FnSigV>::empty());
    assert(methods_of(ms1) =~= seq![m1]);
    assert(ms.last() == ImplMemberV::Method(m2));
    assert(methods_of(ms) == methods_of(ms1).push(m2));
    assert(methods_of(ms) =~= seq![m1, m2]);
    assert(items.drop_last() =~= seq![RsItemV::Function(f)]);
    assert(items.drop_last().drop_last() =~= Seq::<RsItemV>::empty());
    assert(fn_listing(items.drop_last().drop_last()) =~= Seq::<Seq<char>>::empty());
    assert(fn_listing(items.drop_last()) =~= seq![fn_entry(f)]);
    assert(item_fn_entries(items.last()) =~= methods_of(ms).map_values(
        |g: FnSigV| method_entry(st, g),
    ));
    assert(methods_of(ms).map_values(|g: FnSigV| method_entry(st, g)) =~= seq![
        method_entry(st, m1),
        method_entry(st, m2),
    ]);
    assert(fn_listing(items) =~= seq![fn_entry(f), method_entry(st, m1), method_entry(st, m2)]);
}

/// Does a source line mention the named item as a function, struct or
/// enum declaration?
pub open spec fn line_mentions_item(line: Seq<char>, name: Seq<char>) -> bool {
    contains_sub(line, "fn "@ + name) || contains_sub(line, "struct "@ + name) || contains_sub(
        line,
        "enum "@ + name,
    )
}

/// The first 1-based line number whose line mentions the item, or -1.
pub open spec fn find_item_line(ls: Seq<Seq<char>>, name: Seq<char>) -> int
    decreases ls.len(),
{
    if ls.len() == 0 {
        -1
    } else if line_mentions_item(ls.first(), name) {
        1
    } else if find_item_line(ls.drop_first(), name) < 0 {
        -1
    } else {
        1 + find_item_line(ls.drop_first(), name)
    }
}

fn format_fn(f: &FnSig) -> (r: String)
    ensures
        r@ == fn_entry(f.deep_view()),
{
    let mut out = "fn ".to_owned();
    out.append(f.name.as_str());
    out.append("(");
    let joined = join_comma(&f.params);
    out.append(joined.as_str());
    out.append(") -> ");
    match &f.ret {
        Some(t) => out.append(t.as_str()),
        None => out.append("()"),
    }
    proof {
        assert(out@ =~= fn_entry(f.deep_view()));
    }
    out
}

fn format_method(self_type: &String, f: &FnSig) -> (r: String)
    ensures
        r@ == method_entry(self_type@, f.deep_view()),
{
    let mut out = "impl ".to_owned();
    out.append(self_type.as_str());
    out.append("::");
    out.append(f.name.as_str());
    out.append("(");
    let joined = join_comma(&f.params);
    out.append(joined.as_str());
    out.append(") -> ");
    match &f.ret {
        Some(t) => out.append(t.as_str()),
        None => out.append("()"),
    }
    proof {
        assert(out@ =~= method_entry(self_type@, f.deep_view()));
    }
    out
}

/// Walks one file's text into a model of its declarations and enumerates
/// or extracts them. Stateless: every operation re-parses its text.
pub struct RustParser;

impl RustParser {
    pub fn new() -> (r: RustParser) {
        RustParser
    }

    /// The function listing of an already parsed model.
    pub fn functions_of(items: &Vec<RsItem>) -> (r: Vec<String>)
        ensures
            r.deep_view() == fn_listing(items.deep_view()),
    {
        let ghost dv = items.deep_view();
        let mut out: Vec<String> = Vec::new();
        let n = items.len();
        let mut i: usize = 0;
        proof {
            assert(dv.subrange(0, 0) =~= Seq::<RsItemV>::empty());
            assert(out.deep_view() =~= fn_listing(dv.subrange(0, 0)));
        }
        while i < n
            invariant
                0 <= i <= n,
                n == items@.len(),
                dv == items.deep_view(),
                dv.len() == n,
                out.deep_view() == fn_listing(dv.subrange(0, i as int)),
            decreases n - i,
        {
            proof {
                assert(items@[i as int].deep_view() == dv[i as int]);
                assert(dv.subrange(0, i + 1).drop_last() =~= dv.subrange(0, i as int));
                assert(dv.subrange(0, i + 1).last() == dv[i as int]);
            }
            match &items[i] {
                RsItem::Function(f) => {
                    let ghost prev = out.deep_view();
                    let entry = format_fn(f);
                    out.push(entry);
                    proof {
                        assert(out.deep_view() =~= prev.push(fn_entry(f.deep_view())));
                        assert(out.deep_view() =~= prev + item_fn_entries(dv[i as int]));
                    }
                },
                RsItem::ImplBlock { self_type, methods } => {
                    let ghost base = out.deep_view();
                    let ghost msv = methods.deep_view();
                    let ghost tn = self_type@;
                    let m = methods.len();
                    let mut j: usize = 0;
                    proof {
                        assert(msv.subrange(0, 0) =~= Seq::<ImplMemberV>::empty());
                        assert(methods_of(msv.subrange(0, 0)).map_values(
                            |f: FnSigV| method_entry(tn, f),
                        ) =~= Seq::<Seq<char>>::empty());
                        assert(out.deep_view() =~= base + methods_of(msv.subrange(0, 0)).map_values(
                            |f: FnSigV| method_entry(tn, f),
                        ));
                    }
                    while j < m
                        invariant
                            0 <= j <= m,
                            m == methods@.len(),
                            msv == methods.deep_view(),
                            msv.len() == m,
                            tn == self_type@,
                            out.deep_view() == base + methods_of(msv.subrange(0, j as int)).map_values(
                                |f: FnSigV| method_entry(tn, f),
                            ),
                        decreases m - j,
                    {
                        proof {
                            assert(methods@[j as int].deep_view() == msv[j as int]);
                            assert(msv.subrange(0, j + 1).drop_last() =~= msv.subrange(0, j as int));
                            assert(msv.subrange(0, j + 1).last() == msv[j as int]);
                        }
                        match &methods[j] {
                            ImplMember::Method(f) => {
                                let ghost prev = out.deep_view();
                                let entry = format_method(self_type, f);
                                out.push(entry);
                                proof {
                                    assert(out.deep_view() =~= prev.push(
                                        method_entry(tn, f.deep_view()),
                                    ));
                                    assert(methods_of(msv.subrange(0, j + 1)) =~= methods_of(
                                        msv.subrange(0, j as int),
                                    ).push(f.deep_view()));
                                    assert(out.deep_view() =~= base + methods_of(
                                        msv.subrange(0, j + 1),
                                    ).map_values(|f: FnSigV| method_entry(tn, f)));
                                }
                            },
                            ImplMember::Other => {
                                proof {
                                    assert(methods_of(msv.subrange(0, j + 1)) =~= methods_of(
                                        msv.subrange(0, j as int),
                                    ));
                                }
                            },
                        }
                        j = j + 1;
                    }
                    proof {
                        assert(msv.subrange(0, m as int) =~= msv);
                        assert(out.deep_view() =~= base + item_fn_entries(dv[i as int]));
                    }
                },
                _ => {
                    proof {
                        assert(item_fn_entries(dv[i as int]) =~= Seq::<Seq<char>>::empty());
                        assert(out.deep_view() =~= out.deep_view() + item_fn_entries(dv[i as int]));
                    }
                },
            }
            proof {
                assert(out.deep_view() == fn_listing(dv.subrange(0, i + 1)));
            }
            i = i + 1;
        }
        proof {
            assert(dv.subrange(0, n as int) =~= dv);
        }
        out
    }

    /// The struct names of an already parsed model, in declaration order.
    pub fn structs_of(items: &Vec<RsItem>) -> (r: Vec<String>)
        ensures
            r.deep_view() == struct_listing(items.deep_view()),
    {
        let ghost dv = items.deep_view();
        let mut out: Vec<String> = Vec::new();
        let n = items.len();
        let mut i: usize = 0;
        proof {
            assert(dv.subrange(0, 0) =~= Seq::<RsItemV>::empty());
            assert(out.deep_view() =~= struct_listing(dv.subrange(0, 0)));
        }
        while i < n
            invariant
                0 <= i <= n,
                n == items@.len(),
                dv == items.deep_view(),
                dv.len() == n,
                out.deep_view() == struct_listing(dv.subrange(0, i as int)),
            decreases n - i,
        {
            proof {
                assert(items@[i as int].deep_view() == dv[i as int]);
                assert(dv.subrange(0, i + 1).drop_last() =~= dv.subrange(0, i as int));
                assert(dv.subrange(0, i + 1).last() == dv[i as int]);
            }
            match &items[i] {
                RsItem::StructDecl { name } => {
                    let ghost prev = out.deep_view();
                    out.push(name.clone());
                    proof {
                        assert(out.deep_view() =~= prev.push(name@));
                    }
                },
                _ => {},
            }
            proof {
                assert(out.deep_view() == struct_listing(dv.subrange(0, i + 1)));
            }
            i = i + 1;
        }
        proof {
            assert(dv.subrange(0, n as int) =~= dv);
        }
        out
    }

    /// The enum entries of an already parsed model, in declaration order.
    pub fn enums_of(items: &Vec<RsItem>) -> (r: Vec<String>)
        ensures
            r.deep_view() == enum_listing(items.deep_view()),
    {
        let ghost dv = items.deep_view();
        let mut out: Vec<String> = Vec::new();
        let n = items.len();
        let mut i: usize = 0;
        proof {
            assert(dv.subrange(0, 0) =~= Seq::<RsItemV>::empty());
            assert(out.deep_view() =~= enum_listing(dv.subrange(0, 0)));
        }
        while i < n
            invariant
                0 <= i <= n,
                n == items@.len(),
                dv == items.deep_view(),
                dv.len() == n,
                out.deep_view() == enum_listing(dv.subrange(0, i as int)),
            decreases n - i,
        {
            proof {
                assert(items@[i as int].deep_view() == dv[i as int]);
                assert(dv.subrange(0, i + 1).drop_last() =~= dv.subrange(0, i as int));
                assert(dv.subrange(0, i + 1).last() == dv[i as int]);
            }
            match &items[i] {
                RsItem::EnumDecl { name, variants } => {
                    let ghost prev = out.deep_view();
                    let mut entry = name.clone();
                    entry.append(" { ");
                    let joined = join_comma(variants);
                    entry.append(joined.as_str());
                    entry.append(" }");
                    proof {
                        assert(entry@ =~= enum_entry(name@, variants.deep_view()));
                    }
                    out.push(entry);
                    proof {
                        assert(out.deep_view() =~= prev.push(
                            enum_entry(name@, variants.deep_view()),
                        ));
                    }
                },
                _ => {},
            }
            proof {
                assert(out.deep_view() == enum_listing(dv.subrange(0, i + 1)));
            }
            i = i + 1;
        }
        proof {
            assert(dv.subrange(0, n as int) =~= dv);
        }
        out
    }

    /// The verbatim source of the first declaration named `name` in an
    /// already parsed model: top-level functions first, then methods.
    pub fn extract_from(items: &Vec<RsItem>, name: &str) -> (r: Option<String>)
        ensures
            match r {
                Some(src) => extract_spec(items.deep_view(), name@) matches Some(s) && src@ == s,
                None => extract_spec(items.deep_view(), name@) is None,
            },
    {
        let ghost dv = items.deep_view();
        let ghost nm = name@;
        let n = items.len();
        let mut i: usize = 0;
        proof {
            assert(dv.subrange(0, n as int) =~= dv);
        }
        while i < n
            invariant
                0 <= i <= n,
                n == items@.len(),
                dv == items.deep_view(),
                dv.len() == n,
                nm == name@,
                find_top_fn(dv, nm) == find_top_fn(dv.subrange(i as int, n as int), nm),
            decreases n - i,
        {
            let ghost u = dv.subrange(i as int, n as int);
            proof {
                assert(items@[i as int].deep_view() == dv[i as int]);
                assert(u.first() == dv[i as int]);
                assert(u.drop_first() =~= dv.subrange(i + 1, n as int));
            }
            match &items[i] {
                RsItem::Function(f) => {
                    if eq_text(f.name.as_str(), name) {
                        proof {
                            assert(find_top_fn(u, nm) == Option::Some(f.deep_view().source));
                        }
                        return Some(f.source.clone());
                    }
                },
                _ => {},
            }
            i = i + 1;
        }
        proof {
            assert(dv.subrange(n as int, n as int) =~= Seq::<RsItemV>::empty());
            assert(find_top_fn(dv, nm) is None);
        }
        let mut i: usize = 0;
        while i < n
            invariant
                0 <= i <= n,
                n == items@.len(),
                dv == items.deep_view(),
                dv.len() == n,
                nm == name@,
                find_top_fn(dv, nm) is None,
                find_method(dv, nm) == find_method(dv.subrange(i as int, n as int), nm),
            decreases n - i,
        {
            let ghost u = dv.subrange(i as int, n as int);
            proof {
                assert(items@[i as int].deep_view() == dv[i as int]);
                assert(u.first() == dv[i as int]);
                assert(u.drop_first() =~= dv.subrange(i + 1, n as int));
            }
            match &items[i] {
                RsItem::ImplBlock { self_type, methods } => {
                    let ghost msv = methods.deep_view();
                    let m = methods.len();
                    let mut j: usize = 0;
                    proof {
                        assert(msv.subrange(0, m as int) =~= msv);
                        assert(u.first() == (RsItemV::ImplBlock {
                            self_type: self_type@,
                            methods: msv,
                        }));
                    }
                    while j < m
                        invariant
                            0 <= j <= m,
                            m == methods@.len(),
                            msv == methods.deep_view(),
                            msv.len() == m,
                            nm == name@,
                            dv == items.deep_view(),
                            find_top_fn(dv, nm) is None,
                            find_method(dv, nm) == find_method(u, nm),
                            u.len() > 0,
                            u.first() == (RsItemV::ImplBlock {
                                self_type: self_type@,
                                methods: msv,
                            }),
                            find_in_members(msv, nm) == find_in_members(
                                msv.subrange(j as int, m as int),
                                nm,
                            ),
                        decreases m - j,
                    {
                        let ghost w = msv.subrange(j as int, m as int);
                        proof {
                            assert(methods@[j as int].deep_view() == msv[j as int]);
                            assert(w.first() == msv[j as int]);
                            assert(w.drop_first() =~= msv.subrange(j + 1, m as int));
                        }
                        match &methods[j] {
                            ImplMember::Method(f) => {
                                if eq_text(f.name.as_str(), name) {
                                    proof {
                                        assert(find_in_members(w, nm) == Option::Some(
                                            f.deep_view().source,
                                        ));
                                        assert(find_method(u, nm) == Option::Some(
                                            f.deep_view().source,
                                        ));
                                    }
                                    return Some(f.source.clone());
                                }
                            },
                            ImplMember::Other => {},
                        }
                        j = j + 1;
                    }
                    proof {
                        assert(msv.subrange(m as int, m as int) =~= Seq::<ImplMemberV>::empty());
                        assert(find_in_members(msv, nm) is None);
                        assert(find_method(u, nm) == find_method(u.drop_first(), nm));
                    }
                },
                _ => {},
            }
            i = i + 1;
        }
        proof {
            assert(dv.subrange(n as int, n as int) =~= Seq::<RsItemV>::empty());
            assert(find_method(dv, nm) is None);
        }
        None
    }

    /// List every function and method of a source text, in declaration
    /// order, formatted with name, parameters and return type.
    pub fn list_functions(&self, content: &str) -> (r: Result<Vec<String>, ParserError>)
        ensures
            match parse_of(content@) {
                Ok(m) => r matches Ok(v) && v.deep_view() == fn_listing(m),
                Err(msg) => r matches Err(e) && e@ == (ParserErrorV::Grammar { message: msg }),
            },
    {
        match parse_items(content) {
            Ok(items) => Ok(Self::functions_of(&items)),
            Err(message) => Err(ParserError::Grammar { message }),
        }
    }

    /// List every struct name of a source text, in declaration order.
    pub fn list_structs(&self, content: &str) -> (r: Result<Vec<String>, ParserError>)
        ensures
            match parse_of(content@) {
                Ok(m) => r matches Ok(v) && v.deep_view() == struct_listing(m),
                Err(msg) => r matches Err(e) && e@ == (ParserErrorV::Grammar { message: msg }),
            },
    {
        match parse_items(content) {
            Ok(items) => Ok(Self::structs_of(&items)),
            Err(message) => Err(ParserError::Grammar { message }),
        }
    }

    /// List every enum of a source text with its variants, in declaration
    /// order.
    pub fn list_enums(&self, content: &str) -> (r: Result<Vec<String>, ParserError>)
        ensures
            match parse_of(content@) {
                Ok(m) => r matches Ok(v) && v.deep_view() == enum_listing(m),
                Err(msg) => r matches Err(e) && e@ == (ParserErrorV::Grammar { message: msg }),
            },
    {
        match parse_items(content) {
            Ok(items) => Ok(Self::enums_of(&items)),
            Err(message) => Err(ParserError::Grammar { message }),
        }
    }

    /// The verbatim re-rendered source of the first declaration named
    /// `function_name`: top-level functions first, then methods; an error
    /// when no declaration carries the name.
    pub fn extract_function(&self, content: &str, function_name: &str) -> (r: Result<
        String,
        ParserError,
    >)
        ensures
            match parse_of(content@) {
                Ok(m) => match extract_spec(m, function_name@) {
                    Option::Some(src) => r matches Ok(v) && v@ == src,
                    Option::None => r matches Err(e) && e@ == (ParserErrorV::FunctionNotFound {
                        name: function_name@,
                    }),
                },
                Err(msg) => r matches Err(e) && e@ == (ParserErrorV::Grammar { message: msg }),
            },
    {
        match parse_items(content) {
            Ok(items) => match Self::extract_from(&items, function_name) {
                Some(src) => Ok(src),
                None => Err(ParserError::FunctionNotFound { name: function_name.to_owned() }),
            },
            Err(message) => Err(ParserError::Grammar { message }),
        }
    }

    /// The first 1-based line of the text that mentions the named item as
    /// a function, struct or enum declaration; an error when none does.
    pub fn find_item_location(&self, content: &str, item_name: &str) -> (r: Result<
        (usize, usize),
        ParserError,
    >)
        ensures
            ({
                let k = find_item_line(lines_spec(content@), item_name@);
                match r {
                    Ok(loc) => k >= 1 && loc.0 as int == k && loc.1 as int == k,
                    Err(e) => k == -1 && e@ == (ParserErrorV::ItemNotFound { name: item_name@ }),
                }
            }),
    {
        let ghost nm = item_name@;
        let ls = split_lines(content);
        let ghost lsv = lines_spec(content@);
        let mut pat_fn = "fn ".to_owned();
        pat_fn.append(item_name);
        let mut pat_struct = "struct ".to_owned();
        pat_struct.append(item_name);
        let mut pat_enum = "enum ".to_owned();
        pat_enum.append(item_name);
        proof {
            assert(pat_fn@ =~= "fn "@ + nm);
            assert(pat_struct@ =~= "struct "@ + nm);
            assert(pat_enum@ =~= "enum "@ + nm);
        }
        let n = ls.len();
        let mut i: usize = 0;
        proof {
            assert(lsv.subrange(0, n as int) =~= lsv);
        }
        while i < n
            invariant
                0 <= i <= n,
                n == ls@.len(),
                lsv == ls.deep_view(),
                lsv == lines_spec(content@),
                lsv.len() == n,
                nm == item_name@,
                pat_fn@ == "fn "@ + nm,
                pat_struct@ == "struct "@ + nm,
                pat_enum@ == "enum "@ + nm,
                ({
                    let rest = find_item_line(lsv.subrange(i as int, n as int), nm);
                    if rest < 0 {
                        find_item_line(lsv, nm) == -1
                    } else {
                        find_item_line(lsv, nm) == i + rest
                    }
                }),
            decreases n - i,
        {
            let ghost u = lsv.subrange(i as int, n as int);
            proof {
                assert(ls@[i as int]@ == lsv[i as int]);
                assert(u.first() == lsv[i as int]);
                assert(u.drop_first() =~= lsv.subrange(i + 1, n as int));
            }
            let line = &ls[i];
            if contains_text(line.as_str(), pat_fn.as_str()) || contains_text(
                line.as_str(),
                pat_struct.as_str(),
            ) || contains_text(line.as_str(), pat_enum.as_str()) {
                proof {
                    assert(line_mentions_item(u.first(), nm));
                    assert(find_item_line(u, nm) == 1);
                }
                return Ok((i + 1, i + 1));
            }
            i = i + 1;
        }
        proof {
            assert(lsv.subrange(n as int, n as int) =~= Seq::<Seq<char>>::empty());
        }
        Err(ParserError::ItemNotFound { name: item_name.to_owned() })
    }
}

} // verus!
