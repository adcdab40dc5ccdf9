//! The module code that exports a CSS file's class names.
use heck::{ToKebabCase, ToLowerCamelCase};
use indexmap::IndexMap;
use vstd::prelude::*;
use vstd::string::StringExecFns;

verus! {

#[verifier::external_type_specification]
#[verifier::external_body]
#[verifier::reject_recursive_types(K)]
#[verifier::reject_recursive_types(V)]
#[verifier::reject_recursive_types(S)]
pub struct ExIndexMap<K, V, S>(IndexMap<K, V, S>);

/// A class name that an exported symbol stands for.
#[derive(Debug)]
pub enum CssClassName {
    Local { name: String },
    Global { name: String },
    /// A class exported by another CSS file, reached through the request `from`.
    Import { name: String, from: String },
}

/// A dependency of a module: its request, and the module it leads to, if any.
pub struct Dependency {
    pub request: String,
    pub module: Option<usize>,
}

/// A module of the graph: its dependencies, by index, and the id it was given.
pub struct GraphModule {
    pub dependencies: Vec<usize>,
    pub id: String,
}

/// The modules and dependencies of a build; modules and dependencies are named by
/// their index.
pub struct ModuleGraph {
    pub modules: Vec<GraphModule>,
    pub dependencies: Vec<Dependency>,
}

/// Which forms of each exported name are emitted.
pub struct LocalsConvention {
    pub as_is: bool,
    pub camel_case: bool,
    pub dashes: bool,
}

#[derive(Debug)]
pub enum CssModulesError {
    /// No dependency of the module has the request of an imported class.
    UnresolvedImport { request: String },
}

impl LocalsConvention {
    pub fn new(as_is: bool, camel_case: bool, dashes: bool) -> (r: Self)
        ensures
            r.as_is == as_is,
            r.camel_case == camel_case,
            r.dashes == dashes,
    {
        LocalsConvention { as_is, camel_case, dashes }
    }

    pub fn as_is(&self) -> (r: bool)
        ensures
            r == self.as_is,
    {
        self.as_is
    }

    pub fn camel_case(&self) -> (r: bool)
        ensures
            r == self.camel_case,
    {
        self.camel_case
    }

    pub fn dashes(&self) -> (r: bool)
        ensures
            r == self.dashes,
    {
        self.dashes
    }
}

/// `s` as a JSON string literal.
pub uninterp spec fn json_string_of(s: Seq<char>) -> Seq<char>;

/// `s` in lower camel case.
pub uninterp spec fn lower_camel_case_of(s: Seq<char>) -> Seq<char>;

/// `s` in kebab case.
pub uninterp spec fn kebab_case_of(s: Seq<char>) -> Seq<char>;

/// The entries of the map, in the order of insertion.
pub uninterp spec fn index_map_entries(m: IndexMap<String, Vec<CssClassName>>) -> Seq<
    (String, Vec<CssClassName>),
>;

/// Relies on `serde_json::to_string`: a string serializes to its JSON literal, and
/// serializing a string does not fail.
#[verifier::external_body]
fn json_string(s: &str) -> (r: String)
    ensures
        r@ == json_string_of(s@),
{
    serde_json::to_string(s).unwrap_or_default()
}

/// Relies on `heck::ToLowerCamelCase::to_lower_camel_case`.
#[verifier::external_body]
fn lower_camel_case(s: &str) -> (r: String)
    ensures
        r@ == lower_camel_case_of(s@),
{
    s.to_lower_camel_case()
}

/// Relies on `heck::ToKebabCase::to_kebab_case`.
#[verifier::external_body]
fn kebab_case(s: &str) -> (r: String)
    ensures
        r@ == kebab_case_of(s@),
{
    s.to_kebab_case()
}

/// Relies on `IndexMap::len`: the number of entries.
#[verifier::external_body]
fn exports_len(m: &IndexMap<String, Vec<CssClassName>>) -> (r: usize)
    ensures
        r == index_map_entries(*m).len(),
{
    m.len()
}

/// Relies on `IndexMap::get_index`: the entry at position `i` in the order of insertion.
#[verifier::external_body]
fn exports_entry(m: &IndexMap<String, Vec<CssClassName>>, i: usize) -> (r: (
    &String,
    &Vec<CssClassName>,
))
    requires
        i < index_map_entries(*m).len(),
    ensures
        *r.0 == index_map_entries(*m)[i as int].0,
        *r.1 == index_map_entries(*m)[i as int].1,
{
    m.get_index(i).unwrap()
}

pub open spec fn require_helper() -> Seq<char> {
    "__webpack_require__"@
}

pub open spec fn class_separator() -> Seq<char> {
    " + \" \" + "@
}

/// The id of the module that the first dependency of `deps[j..]` with the request
/// `request` leads to; dependencies that lead to no module are passed over.
pub open spec fn resolve_from(g: ModuleGraph, deps: Seq<usize>, request: Seq<char>, j: int) -> Option<
    Seq<char>,
>
    decreases deps.len() - j,
{
    if j < 0 || j >= deps.len() {
        None
    } else {
        let d = deps[j] as int;
        if d < g.dependencies@.len() && g.dependencies@[d].request@ == request
            && g.dependencies@[d].module is Some && g.dependencies@[d].module->Some_0
            < g.modules@.len() {
            Some(g.modules@[g.dependencies@[d].module->Some_0 as int].id@)
        } else {
            resolve_from(g, deps, request, j + 1)
        }
    }
}

/// The id of the module that `owner` reaches through `request`.
pub open spec fn resolve_import(g: ModuleGraph, owner: int, request: Seq<char>) -> Option<Seq<char>> {
    if 0 <= owner < g.modules@.len() {
        resolve_from(g, g.modules@[owner].dependencies@, request, 0)
    } else {
        None
    }
}

/// The expression of one class name; `Err` holds the request that resolves to no module.
pub open spec fn class_expr(e: CssClassName, g: ModuleGraph, owner: int) -> Result<
    Seq<char>,
    Seq<char>,
> {
    match e {
        CssClassName::Local { name } => Ok(json_string_of(name@)),
        CssClassName::Global { name } => Ok(json_string_of(name@)),
        CssClassName::Import { name, from } => match resolve_import(g, owner, from@) {
            Some(id) => Ok(
                require_helper() + "("@ + json_string_of(id) + ")["@ + json_string_of(name@)
                    + "]"@,
            ),
            None => Err(from@),
        },
    }
}

/// The expressions of the class names, joined so that they give the class list.
pub open spec fn joined_exprs(es: Seq<CssClassName>, g: ModuleGraph, owner: int) -> Result<
    Seq<char>,
    Seq<char>,
>
    decreases es.len(),
{
    if es.len() == 0 {
        Ok(Seq::empty())
    } else {
        match joined_exprs(es.drop_last(), g, owner) {
            Err(r) => Err(r),
            Ok(prev) => match class_expr(es.last(), g, owner) {
                Err(r) => Err(r),
                Ok(x) => Ok(
                    if es.len() == 1 {
                        x
                    } else {
                        prev + class_separator() + x
                    },
                ),
            },
        }
    }
}

pub open spec fn export_line(key: Seq<char>, content: Seq<char>) -> Seq<char> {
    "  "@ + json_string_of(key) + ": "@ + content + ",\n"@
}

/// One line for each enabled convention, in the order as is, camel case, kebab case.
pub open spec fn key_lines(key: Seq<char>, content: Seq<char>, c: LocalsConvention) -> Seq<char> {
    (if c.as_is {
        export_line(key, content)
    } else {
        Seq::empty()
    }) + (if c.camel_case {
        export_line(lower_camel_case_of(key), content)
    } else {
        Seq::empty()
    }) + (if c.dashes {
        export_line(kebab_case_of(key), content)
    } else {
        Seq::empty()
    })
}

/// The lines of all entries, in their order.
pub open spec fn export_lines(
    entries: Seq<(String, Vec<CssClassName>)>,
    g: ModuleGraph,
    owner: int,
    c: LocalsConvention,
) -> Result<Seq<char>, Seq<char>>
    decreases entries.len(),
{
    if entries.len() == 0 {
        Ok(Seq::empty())
    } else {
        match export_lines(entries.drop_last(), g, owner, c) {
            Err(r) => Err(r),
            Ok(prev) => match joined_exprs(entries.last().1@, g, owner) {
                Err(r) => Err(r),
                Ok(content) => Ok(prev + key_lines(entries.last().0@, content, c)),
            },
        }
    }
}

/// The whole exports module, or the request that resolves to no module.
pub open spec fn exports_code(
    entries: Seq<(String, Vec<CssClassName>)>,
    g: ModuleGraph,
    owner: int,
    c: LocalsConvention,
) -> Result<Seq<char>, Seq<char>> {
    match export_lines(entries, g, owner, c) {
        Ok(lines) => Ok("module.exports = {\n"@ + lines + "};\n"@),
        Err(r) => Err(r),
    }
}

pub open spec fn result_view(r: Result<String, CssModulesError>) -> Result<Seq<char>, Seq<char>> {
    match r {
        Ok(s) => Ok(s@),
        Err(CssModulesError::UnresolvedImport { request }) => Err(request@),
    }
}

/// The id of the module that `owner` reaches through `request`.
pub fn resolve_import_id(graph: &ModuleGraph, owner: usize, request: &String) -> (r: Option<String>)
    ensures
        match r {
            Some(id) => resolve_import(*graph, owner as int, request@) == Some(id@),
            None => resolve_import(*graph, owner as int, request@) is None,
        },
{
    if owner >= graph.modules.len() {
        return None;
    }
    let deps = &graph.modules[owner].dependencies;
    let mut j: usize = 0;
    while j < deps.len()
        invariant
            owner < graph.modules@.len(),
            *deps == graph.modules@[owner as int].dependencies,
            j <= deps@.len(),
            resolve_import(*graph, owner as int, request@) == resolve_from(
                *graph,
                deps@,
                request@,
                j as int,
            ),
        decreases deps.len() - j,
    {
        let d = deps[j];
        if d < graph.dependencies.len() {
            let dep = &graph.dependencies[d];
            if dep.request == *request {
                match dep.module {
                    Some(m) => {
                        if m < graph.modules.len() {
                            return Some(graph.modules[m].id.clone());
                        }
                    },
                    None => {},
                }
            }
        }
        j = j + 1;
    }
    None
}

fn class_expr_of(e: &CssClassName, graph: &ModuleGraph, owner: usize) -> (r: Result<
    String,
    CssModulesError,
>)
    ensures
        result_view(r) == class_expr(*e, *graph, owner as int),
{
    match e {
        CssClassName::Local { name } => Ok(json_string(name.as_str())),
        CssClassName::Global { name } => Ok(json_string(name.as_str())),
        CssClassName::Import { name, from } => match resolve_import_id(graph, owner, from) {
            Some(id) => {
                let mut s = String::from_str("__webpack_require__");
                s.append("(");
                s.append(json_string(id.as_str()).as_str());
                s.append(")[");
                s.append(json_string(name.as_str()).as_str());
                s.append("]");
                Ok(s)
            },
            None => Err(CssModulesError::UnresolvedImport { request: from.clone() }),
        },
    }
}

proof fn lemma_joined_err_extends(es: Seq<CssClassName>, g: ModuleGraph, owner: int, i: int, r: Seq<char>)
    requires
        0 <= i <= es.len(),
        joined_exprs(es.take(i), g, owner) == Err::<Seq<char>, Seq<char>>(r),
    ensures
        joined_exprs(es, g, owner) == Err::<Seq<char>, Seq<char>>(r),
    decreases es.len() - i,
{
    if i < es.len() {
        assert(es.take(i + 1).drop_last() =~= es.take(i));
        lemma_joined_err_extends(es, g, owner, i + 1, r);
    } else {
        assert(es.take(i) =~= es);
    }
}

/// The expressions of a key's class names, joined into one value.
fn joined_content(elements: &Vec<CssClassName>, graph: &ModuleGraph, owner: usize) -> (r: Result<
    String,
    CssModulesError,
>)
    ensures
        result_view(r) == joined_exprs(elements@, *graph, owner as int),
{
    let mut acc = String::new();
    let mut i: usize = 0;
    assert(elements@.take(0) =~= Seq::<CssClassName>::empty());
    while i < elements.len()
        invariant
            i <= elements@.len(),
            joined_exprs(elements@.take(i as int), *graph, owner as int) == Ok::<
                Seq<char>,
                Seq<char>,
            >(acc@),
        decreases elements.len() - i,
    {
        proof {
            assert(elements@.take(i + 1).drop_last() =~= elements@.take(i as int));
        }
        match class_expr_of(&elements[i], graph, owner) {
            Ok(x) => {
                if i > 0 {
                    acc.append(" + \" \" + ");
                    acc.append(x.as_str());
                } else {
                    acc = x;
                }
            },
            Err(e) => {
                proof {
                    lemma_joined_err_extends(elements@, *graph, owner as int, i + 1, result_view(Err(e))->Err_0);
                }
                return Err(e);
            },
        }
        i = i + 1;
    }
    assert(elements@.take(i as int) =~= elements@);
    Ok(acc)
}

fn push_line(code: &mut String, key: &str, content: &str)
    ensures
        final(code)@ == old(code)@ + export_line(key@, content@),
{
    code.append("  ");
    code.append(json_string(key).as_str());
    code.append(": ");
    code.append(content);
    code.append(",\n");
    assert(final(code)@ =~= old(code)@ + export_line(key@, content@));
}

/// Appends the lines of one exported key.
fn push_key_lines(
    code: &mut String,
    key: &String,
    elements: &Vec<CssClassName>,
    graph: &ModuleGraph,
    owner: usize,
    conv: &LocalsConvention,
) -> (r: Result<(), CssModulesError>)
    ensures
        match joined_exprs(elements@, *graph, owner as int) {
            Ok(content) => r is Ok && final(code)@ == old(code)@ + key_lines(key@, content, *conv),
            Err(req) => r matches Err(e) && result_view(Err(e)) == Err::<Seq<char>, Seq<char>>(
                req,
            ),
        },
{
    let content = match joined_content(elements, graph, owner) {
        Ok(c) => c,
        Err(e) => {
            return Err(e);
        },
    };
    let ghost start = code@;
    if conv.as_is() {
        push_line(code, key.as_str(), content.as_str());
    }
    if conv.camel_case() {
        let k = lower_camel_case(key.as_str());
        push_line(code, k.as_str(), content.as_str());
    }
    if conv.dashes() {
        let k = kebab_case(key.as_str());
        push_line(code, k.as_str(), content.as_str());
    }
    assert(code@ =~= start + key_lines(key@, content@, *conv));
    Ok(())
}

proof fn lemma_lines_err_extends(
    entries: Seq<(String, Vec<CssClassName>)>,
    g: ModuleGraph,
    owner: int,
    c: LocalsConvention,
    i: int,
    r: Seq<char>,
)
    requires
        0 <= i <= entries.len(),
        export_lines(entries.take(i), g, owner, c) == Err::<Seq<char>, Seq<char>>(r),
    ensures
        export_lines(entries, g, owner, c) == Err::<Seq<char>, Seq<char>>(r),
    decreases entries.len() - i,
{
    if i < entries.len() {
        assert(entries.take(i + 1).drop_last() =~= entries.take(i));
        lemma_lines_err_extends(entries, g, owner, c, i + 1, r);
    } else {
        assert(entries.take(i) =~= entries);
    }
}

/// The exports module of a CSS file, from its exported keys and their class names in
/// order: one line per key and enabled convention. An imported class is reached
/// through the dependency of `module` with its request; where there is none, the
/// result is an error.
pub fn exports_entries_to_string(
    entries: &Vec<(String, Vec<CssClassName>)>,
    module: usize,
    graph: &ModuleGraph,
    locals_convention: &LocalsConvention,
) -> (r: Result<String, CssModulesError>)
    ensures
        result_view(r) == exports_code(entries@, *graph, module as int, *locals_convention),
{
    let mut code = String::from_str("module.exports = {\n");
    let ghost header = code@;
    let mut i: usize = 0;
    assert(entries@.take(0) =~= Seq::<(String, Vec<CssClassName>)>::empty());
    while i < entries.len()
        invariant
            i <= entries@.len(),
            header == "module.exports = {\n"@,
            export_lines(entries@.take(i as int), *graph, module as int, *locals_convention)
                matches Ok(lines) && code@ == header + lines,
        decreases entries.len() - i,
    {
        proof {
            assert(entries@.take(i + 1).drop_last() =~= entries@.take(i as int));
            assert(entries@.take(i + 1).last() == entries@[i as int]);
        }
        let ghost before = code@;
        match push_key_lines(&mut code, &entries[i].0, &entries[i].1, graph, module, locals_convention) {
            Ok(()) => {
                assert(code@ =~= header + (before.subrange(header.len() as int, before.len() as int)
                    + code@.subrange(before.len() as int, code@.len() as int)));
            },
            Err(e) => {
                proof {
                    lemma_lines_err_extends(
                        entries@,
                        *graph,
                        module as int,
                        *locals_convention,
                        i + 1,
                        result_view(Err(e))->Err_0,
                    );
                }
                return Err(e);
            },
        }
        i = i + 1;
    }
    assert(entries@.take(i as int) =~= entries@);
    code.append("};\n");
    Ok(code)
}

/// The exports module of a CSS file, from the map of its exported keys to their
/// class names, in the map's order of insertion.
pub fn css_modules_exports_to_string(
    exports: &IndexMap<String, Vec<CssClassName>>,
    module: usize,
    graph: &ModuleGraph,
    locals_convention: &LocalsConvention,
) -> (r: Result<String, CssModulesError>)
    ensures
        result_view(r) == exports_code(
            index_map_entries(*exports),
            *graph,
            module as int,
            *locals_convention,
        ),
{
    let ghost entries = index_map_entries(*exports);
    let n = exports_len(exports);
    let mut code = String::from_str("module.exports = {\n");
    let ghost header = code@;
    let mut i: usize = 0;
    assert(entries.take(0) =~= Seq::<(String, Vec<CssClassName>)>::empty());
    while i < n
        invariant
            n == entries.len(),
            entries == index_map_entries(*exports),
            i <= n,
            header == "module.exports = {\n"@,
            export_lines(entries.take(i as int), *graph, module as int, *locals_convention)
                matches Ok(lines) && code@ == header + lines,
        decreases n - i,
    {
        proof {
            assert(entries.take(i + 1).drop_last() =~= entries.take(i as int));
            assert(entries.take(i + 1).last() == entries[i as int]);
        }
        let (key, elements) = exports_entry(exports, i);
        let ghost before = code@;
        match push_key_lines(&mut code, key, elements, graph, module, locals_convention) {
            Ok(()) => {
                assert(code@ =~= header + (before.subrange(header.len() as int, before.len() as int)
                    + code@.subrange(before.len() as int, code@.len() as int)));
            },
            Err(e) => {
                proof {
                    lemma_lines_err_extends(
                        entries,
                        *graph,
                        module as int,
                        *locals_convention,
                        i + 1,
                        result_view(Err(e))->Err_0,
                    );
                }
                return Err(e);
            },
        }
        i = i + 1;
    }
    assert(entries.take(i as int) =~= entries);
    code.append("};\n");
    Ok(code)
}

/// Lines come in the table's order: the lines of a table made of `a` followed by `b`
/// are the lines of `a` followed by those of `b`.
pub proof fn lemma_export_lines_in_order(
    a: Seq<(String, Vec<CssClassName>)>,
    b: Seq<(String, Vec<CssClassName>)>,
    g: ModuleGraph,
    owner: int,
    c: LocalsConvention,
    x: Seq<char>,
    y: Seq<char>,
)
    requires
        export_lines(a, g, owner, c) == Ok::<Seq<char>, Seq<char>>(x),
        export_lines(b, g, owner, c) == Ok::<Seq<char>, Seq<char>>(y),
    ensures
        export_lines(a + b, g, owner, c) == Ok::<Seq<char>, Seq<char>>(x + y),
    decreases b.len(),
{
    if b.len() == 0 {
        assert(a + b =~= a);
        assert(x + y =~= x);
    } else {
        let b0 = b.drop_last();
        assert((a + b).drop_last() =~= a + b0);
        assert((a + b).last() == b.last());
        let y0 = export_lines(b0, g, owner, c)->Ok_0;
        lemma_export_lines_in_order(a, b0, g, owner, c, x, y0);
        let content = joined_exprs(b.last().1@, g, owner)->Ok_0;
        assert(x + y0 + key_lines(b.last().0@, content, c) =~= x + y);
    }
}

/// Composition: the value of a key whose class names are `a` followed by `b`, both
/// non-empty, is the value of `a`, a space, and the value of `b`.
pub proof fn lemma_joined_composition(
    a: Seq<CssClassName>,
    b: Seq<CssClassName>,
    g: ModuleGraph,
    owner: int,
    x: Seq<char>,
    y: Seq<char>,
)
    requires
        a.len() > 0,
        b.len() > 0,
        joined_exprs(a, g, owner) == Ok::<Seq<char>, Seq<char>>(x),
        joined_exprs(b, g, owner) == Ok::<Seq<char>, Seq<char>>(y),
    ensures
        joined_exprs(a + b, g, owner) == Ok::<Seq<char>, Seq<char>>(x + class_separator() + y),
    decreases b.len(),
{
    let b0 = b.drop_last();
    assert((a + b).drop_last() =~= a + b0);
    assert((a + b).last() == b.last());
    let e = class_expr(b.last(), g, owner)->Ok_0;
    if b.len() == 1 {
        assert(a + b0 =~= a);
        assert(y == e);
    } else {
        let y0 = joined_exprs(b0, g, owner)->Ok_0;
        lemma_joined_composition(a, b0, g, owner, x, y0);
        assert(x + class_separator() + y0 + class_separator() + e =~= x + class_separator() + y);
    }
}

/// Every imported class of the table resolves from `owner`.
pub open spec fn imports_resolve(
    entries: Seq<(String, Vec<CssClassName>)>,
    g: ModuleGraph,
    owner: int,
) -> bool {
    forall|i: int, j: int|
        0 <= i < entries.len() && 0 <= j < entries[i].1@.len() ==> #[trigger] class_expr(
            entries[i].1@[j],
            g,
            owner,
        ) is Ok
}

proof fn lemma_joined_ok_iff(es: Seq<CssClassName>, g: ModuleGraph, owner: int)
    ensures
        joined_exprs(es, g, owner) is Ok <==> forall|j: int|
            0 <= j < es.len() ==> #[trigger] class_expr(es[j], g, owner) is Ok,
    decreases es.len(),
{
    if es.len() > 0 {
        lemma_joined_ok_iff(es.drop_last(), g, owner);
        assert forall|j: int| 0 <= j < es.len() - 1 implies es.drop_last()[j] == es[j] by {}
        if joined_exprs(es, g, owner) is Ok {
            assert forall|j: int| 0 <= j < es.len() implies #[trigger] class_expr(es[j], g, owner) is Ok by {
                if j < es.len() - 1 {
                    assert(es.drop_last()[j] == es[j]);
                }
            }
        }
    }
}

/// Failure is scoped to the module: its exports module is produced exactly when each
/// imported class resolves through the module's own dependencies, whatever holds of
/// other modules.
pub proof fn lemma_exports_ok_iff_imports_resolve(
    entries: Seq<(String, Vec<CssClassName>)>,
    g: ModuleGraph,
    owner: int,
    c: LocalsConvention,
)
    ensures
        exports_code(entries, g, owner, c) is Ok <==> imports_resolve(entries, g, owner),
    decreases entries.len(),
{
    if entries.len() > 0 {
        let e0 = entries.drop_last();
        lemma_exports_ok_iff_imports_resolve(e0, g, owner, c);
        lemma_joined_ok_iff(entries.last().1@, g, owner);
        assert forall|i: int| 0 <= i < entries.len() - 1 implies e0[i] == entries[i] by {}
        if imports_resolve(entries, g, owner) {
            assert forall|i: int, j: int|
                0 <= i < e0.len() && 0 <= j < e0[i].1@.len() implies #[trigger] class_expr(
                e0[i].1@[j],
                g,
                owner,
            ) is Ok by {
                assert(e0[i] == entries[i]);
            }
            assert forall|j: int| 0 <= j < entries.last().1@.len() implies #[trigger] class_expr(
                entries.last().1@[j],
                g,
                owner,
            ) is Ok by {
                assert(class_expr(entries[entries.len() - 1].1@[j], g, owner) is Ok);
            }
        }
        if exports_code(entries, g, owner, c) is Ok {
            assert forall|i: int, j: int|
                0 <= i < entries.len() && 0 <= j < entries[i].1@.len() implies #[trigger] class_expr(
                entries[i].1@[j],
                g,
                owner,
            ) is Ok by {
                if i < entries.len() - 1 {
                    assert(e0[i] == entries[i]);
                    assert(class_expr(e0[i].1@[j], g, owner) is Ok);
                } else {
                    assert(class_expr(entries.last().1@[j], g, owner) is Ok);
                }
            }
        }
    }
}

} // verus!
