//! Walks the syntax tree of one file and collects the constants that it
//! declares and the constants that it refers to.

use vstd::prelude::*;
use vstd::string::StringExecFns;
use vstd::string::StringSliceAdditionalSpecFns;
use line_col::LineColLookup;
use crate::parser::ast::{
    all_within,
    optional_within,
    Casgn,
    Class,
    Const,
    Kwargs,
    Loc,
    Module,
    Node,
    Send,
};
use crate::parser::inflector_shim::{class_case, to_class_case};
use crate::parser::namespace_calculator::colons_str;
use crate::parser::{
    ParsedDefinition,
    ParsedDefinitionModel,
    Range,
    UnresolvedReference,
    UnresolvedReferenceModel,
};
use crate::text::{clone_strings, colons, contains_text, join, join_strings, same_text};

verus! {

/// Why a constant's name could not be read off the syntax tree.
#[derive(Debug, PartialEq, Eq, Clone, Copy, Structural)]
pub enum ParseError {
    /// The name is computed when the program runs.
    Metaprogramming,
}

/// A constant named in the superclass of a class that is being walked, with
/// the nesting that the class is declared in.
#[derive(Debug, PartialEq, Eq)]
pub struct SuperclassReference {
    pub name: String,
    pub namespace_path: Vec<String>,
}

/// The mathematical value of a [`SuperclassReference`].
pub struct SuperclassReferenceModel {
    pub name: Seq<char>,
    pub namespace_path: Seq<Seq<char>>,
}

impl DeepView for SuperclassReference {
    type V = SuperclassReferenceModel;

    open spec fn deep_view(&self) -> SuperclassReferenceModel {
        SuperclassReferenceModel {
            name: self.name@,
            namespace_path: self.namespace_path.deep_view(),
        }
    }
}

/// The state of a walk over one file's syntax tree.
pub struct ReferenceCollector<'a> {
    /// The references found so far, in the order of the walk.
    pub references: Vec<UnresolvedReference>,
    /// The definitions found so far, in the order of the walk.
    pub definitions: Vec<ParsedDefinition>,
    /// The classes and modules around the place of the walk, outermost first.
    pub current_namespaces: Vec<String>,
    /// The text that the tree was parsed from.
    pub source: &'a str,
    /// Is the walk inside the superclass of a class declaration?
    pub in_superclass: bool,
    /// The constants named in the superclasses of the classes around the place of the walk.
    pub superclasses: Vec<SuperclassReference>,
    /// Methods that declare an association, besides the built-in ones.
    pub custom_associations: Vec<String>,
    /// Words that stay in capitals in the name of a class.
    pub acronyms: Vec<String>,
}

/// The mathematical value of a [`ReferenceCollector`].
pub struct CollectorModel {
    pub references: Seq<UnresolvedReferenceModel>,
    pub definitions: Seq<ParsedDefinitionModel>,
    pub current_namespaces: Seq<Seq<char>>,
    pub source: Seq<u8>,
    pub in_superclass: bool,
    pub superclasses: Seq<SuperclassReferenceModel>,
    pub custom_associations: Seq<Seq<char>>,
    pub acronyms: Seq<Seq<char>>,
}

impl<'a> DeepView for ReferenceCollector<'a> {
    type V = CollectorModel;

    open spec fn deep_view(&self) -> CollectorModel {
        CollectorModel {
            references: self.references.deep_view(),
            definitions: self.definitions.deep_view(),
            current_namespaces: self.current_namespaces.deep_view(),
            source: self.source.spec_bytes(),
            in_superclass: self.in_superclass,
            superclasses: self.superclasses.deep_view(),
            custom_associations: self.custom_associations.deep_view(),
            acronyms: self.acronyms.deep_view(),
        }
    }
}

/// The number of line breaks among the first `index` bytes.
pub open spec fn newlines_before(bytes: Seq<u8>, index: int) -> nat
    decreases index,
{
    if index <= 0 {
        0
    } else {
        newlines_before(bytes, index - 1) + if bytes[index - 1] == 10u8 {
            1nat
        } else {
            0nat
        }
    }
}

/// Where the line of the byte at `index` begins: behind the last line break
/// before `index`, or at 0.
pub open spec fn line_start(bytes: Seq<u8>, index: int) -> int
    decreases index,
{
    if index <= 0 {
        0
    } else if bytes[index - 1] == 10u8 {
        index
    } else {
        line_start(bytes, index - 1)
    }
}

/// The line of the byte at `index`, counted from 1.
pub open spec fn line_of(bytes: Seq<u8>, index: int) -> int {
    1int + newlines_before(bytes, index)
}

/// The column of the byte at `index`, counted in bytes from 1.
pub open spec fn column_of(bytes: Seq<u8>, index: int) -> int {
    index - line_start(bytes, index) + 1
}

/// The span `loc` in rows and columns: rows count from 1 and columns from 0,
/// and the end is the place behind the last byte of the span.
pub open spec fn range_of(source: Seq<u8>, loc: Loc) -> Range {
    Range {
        start_row: line_of(source, loc.begin as int) as usize,
        start_col: (column_of(source, loc.begin as int) - 1) as usize,
        end_row: line_of(source, loc.end as int) as usize,
        end_col: (column_of(source, loc.end as int) - 1) as usize,
    }
}

/// The name that a scope and a name spell together: the scope's own name,
/// `::` and the name; the name alone where there is no scope. None where the
/// scope is not spelled out in constants.
pub open spec fn scoped_name(scope: Option<Box<Node>>, name: Seq<char>) -> Option<Seq<char>>
    decreases scope,
{
    match scope {
        Some(inner) => match const_name(*inner) {
            Some(parent) => Some(parent + colons() + name),
            None => None,
        },
        None => Some(name),
    }
}

/// The name that a node spells as a constant: that of a constant with its
/// scope, nothing for the root namespace. None for anything else, whose name
/// is known only when the program runs.
pub open spec fn const_name(node: Node) -> Option<Seq<char>>
    decreases node,
{
    match node {
        Node::Const(c) => scoped_name(c.scope, c.name@),
        Node::Cbase(_) => Some(Seq::empty()),
        _ => None,
    }
}

/// The span of a node that names a constant.
pub open spec fn span_of(node: Node) -> Loc {
    match node {
        Node::Const(c) => c.expression_l,
        Node::Cbase(c) => c.expression_l,
        _ => Loc { begin: 0, end: 0 },
    }
}

/// The fully qualified name of `name` declared inside `namespaces`.
pub open spec fn definition_name(namespaces: Seq<Seq<char>>, name: Seq<char>) -> Seq<char> {
    colons() + join(namespaces.push(name), colons())
}

/// The first of `superclasses`, from `from` on, that is called `name`.
pub open spec fn first_named(
    superclasses: Seq<SuperclassReferenceModel>,
    name: Seq<char>,
    from: int,
) -> Option<SuperclassReferenceModel>
    decreases superclasses.len() - from,
{
    if from < 0 || from >= superclasses.len() {
        None
    } else if superclasses[from].name == name {
        Some(superclasses[from])
    } else {
        first_named(superclasses, name, from + 1)
    }
}

/// `names` without the entries equal to `name`.
pub open spec fn without(names: Seq<Seq<char>>, name: Seq<char>) -> Seq<Seq<char>>
    decreases names.len(),
{
    if names.len() == 0 {
        Seq::empty()
    } else if names.last() == name {
        without(names.drop_last(), name)
    } else {
        without(names.drop_last(), name).push(names.last())
    }
}

/// The nesting that a reference to `name` is reported with: where a
/// superclass around it is called `name`, the nesting that this superclass
/// was named in; else the namespaces around it but for those called `name`.
pub open spec fn nesting_of(state: CollectorModel, name: Seq<char>) -> Seq<Seq<char>> {
    match first_named(state.superclasses, name, 0) {
        Some(superclass) => superclass.namespace_path,
        None => without(state.current_namespaces, name),
    }
}

/// Does a call of `method` declare an association?
pub open spec fn is_association_method(method: Seq<char>, custom: Seq<Seq<char>>) -> bool {
    method == "has_one"@ || method == "has_many"@ || method == "belongs_to"@ || method
        == "has_and_belongs_to_many"@ || custom.contains(method)
}

/// The class that one keyword argument names, if it is `class_name: "..."`.
pub open spec fn class_name_of_pair(pair: Node) -> Option<Seq<char>> {
    match pair {
        Node::Pair(p) => match (*p.key, *p.value) {
            (Node::Sym(k), Node::Str(v)) => if k.name@ == "class_name"@ {
                Some(v.value@)
            } else {
                None
            },
            _ => None,
        },
        _ => None,
    }
}

/// The class that the first `class_name: "..."` among `pairs`, from `from` on, names.
pub open spec fn class_name_of_pairs(pairs: Seq<Node>, from: int) -> Option<Seq<char>>
    decreases pairs.len() - from,
{
    if from < 0 || from >= pairs.len() {
        None
    } else {
        match class_name_of_pair(pairs[from]) {
            Some(name) => Some(name),
            None => class_name_of_pairs(pairs, from + 1),
        }
    }
}

/// The class that the keyword arguments among the first `upto` of `args` name
/// with `class_name: "..."`; the last such argument decides.
pub open spec fn class_name_of_args(args: Seq<Node>, upto: int) -> Option<Seq<char>>
    decreases upto,
{
    if upto <= 0 || upto > args.len() {
        None
    } else {
        let named = match args[upto - 1] {
            Node::Kwargs(k) => class_name_of_pairs(k.pairs@, 0),
            _ => None,
        };
        match named {
            Some(name) => Some(name),
            None => class_name_of_args(args, upto - 1),
        }
    }
}

/// The class that an association is with: the one given as `class_name: "..."`,
/// as it is written; else the one that the first argument, a symbol, stands
/// for by its singular.
pub open spec fn association_target(args: Seq<Node>, acronyms: Seq<Seq<char>>) -> Option<
    Seq<char>,
> {
    match class_name_of_args(args, args.len() as int) {
        Some(name) => Some(name),
        None => if args.len() > 0 {
            match args[0] {
                Node::Sym(s) => Some(class_case(s.name@, true, acronyms)),
                _ => None,
            }
        } else {
            None
        },
    }
}

/// The reference that a method call gives rise to by declaring an association.
pub open spec fn association_reference(state: CollectorModel, call: Send) -> Option<
    UnresolvedReferenceModel,
> {
    if is_association_method(call.method_name@, state.custom_associations) {
        match association_target(call.args@, state.acronyms) {
            Some(name) => Some(
                UnresolvedReferenceModel {
                    name,
                    namespace_path: state.current_namespaces,
                    location: range_of(state.source, call.expression_l),
                },
            ),
            None => None,
        }
    } else {
        None
    }
}

/// The first `len` entries of `s`, or all of `s` where it has fewer.
pub open spec fn truncated<T>(s: Seq<T>, len: int) -> Seq<T> {
    if 0 <= len <= s.len() {
        s.take(len)
    } else {
        s
    }
}

/// `s` without its last entry, if it has one.
pub open spec fn popped<T>(s: Seq<T>) -> Seq<T> {
    if s.len() > 0 {
        s.drop_last()
    } else {
        s
    }
}

/// The state after the declaration of `name` at `location` has been recorded
/// and the walk has entered it: the declaration is a definition and also a
/// reference, both under its fully qualified name.
pub open spec fn entered(state: CollectorModel, name: Seq<char>, location: Range) -> CollectorModel {
    let fully_qualified_name = definition_name(state.current_namespaces, name);
    CollectorModel {
        definitions: state.definitions.push(
            ParsedDefinitionModel { fully_qualified_name, location },
        ),
        references: state.references.push(
            UnresolvedReferenceModel {
                name: fully_qualified_name,
                namespace_path: state.current_namespaces,
                location,
            },
        ),
        current_namespaces: state.current_namespaces.push(name),
        ..state
    }
}

/// The state after a walk over an optional node.
pub open spec fn collect_optional(state: CollectorModel, node: Option<Box<Node>>) -> CollectorModel
    decreases node,
{
    match node {
        Some(inner) => collect(state, *inner),
        None => state,
    }
}

/// The state after a walk over the nodes from `from` on, one after the other.
pub open spec fn collect_all(state: CollectorModel, nodes: Seq<Node>, from: int) -> CollectorModel
    decreases nodes, nodes.len() - from,
{
    if 0 <= from < nodes.len() {
        collect_all(collect(state, nodes[from]), nodes, from + 1)
    } else {
        state
    }
}

/// The state after a class declaration. A class whose name is not spelled
/// out in constants is passed over. Otherwise its superclass is walked first,
/// and every constant met there is remembered as a superclass; then the
/// declaration is recorded and its body walked inside the class; on the way
/// out the class leaves the namespaces, and its superclasses are forgotten.
pub open spec fn collect_class(state: CollectorModel, class: Class) -> CollectorModel
    decreases class,
{
    match const_name(*class.name) {
        None => state,
        Some(name) => {
            let above = match class.superclass {
                Some(superclass) => CollectorModel {
                    in_superclass: false,
                    ..collect(CollectorModel { in_superclass: true, ..state }, *superclass)
                },
                None => state,
            };
            let inside = entered(above, name, range_of(state.source, span_of(*class.name)));
            let after = collect_optional(inside, class.body);
            CollectorModel {
                current_namespaces: popped(after.current_namespaces),
                superclasses: truncated(after.superclasses, state.superclasses.len() as int),
                ..after
            }
        },
    }
}

/// The state after a module declaration. A module whose name is not spelled
/// out in constants is passed over. Otherwise the declaration is recorded and
/// its body walked inside the module.
pub open spec fn collect_module(state: CollectorModel, module: Module) -> CollectorModel
    decreases module,
{
    match const_name(*module.name) {
        None => state,
        Some(name) => {
            let inside = entered(state, name, range_of(state.source, span_of(*module.name)));
            let after = collect_optional(inside, module.body);
            CollectorModel { current_namespaces: popped(after.current_namespaces), ..after }
        },
    }
}

/// The state after a constant: a reference to it under the name that it is
/// written with. Inside a superclass the constant is first remembered as one.
/// A constant whose scope is not spelled out in constants is passed over.
pub open spec fn collect_const(state: CollectorModel, constant: Const) -> CollectorModel {
    match scoped_name(constant.scope, constant.name@) {
        None => state,
        Some(name) => {
            let noted = if state.in_superclass {
                CollectorModel {
                    superclasses: state.superclasses.push(
                        SuperclassReferenceModel { name, namespace_path: state.current_namespaces },
                    ),
                    ..state
                }
            } else {
                state
            };
            CollectorModel {
                references: noted.references.push(
                    UnresolvedReferenceModel {
                        name,
                        namespace_path: nesting_of(noted, name),
                        location: range_of(state.source, constant.expression_l),
                    },
                ),
                ..noted
            }
        },
    }
}

/// The state after an assignment to a constant: a definition of that
/// constant, unless its scope is not spelled out in constants; then the
/// assigned value is walked.
pub open spec fn collect_casgn(state: CollectorModel, assignment: Casgn) -> CollectorModel
    decreases assignment,
{
    let defined = match scoped_name(assignment.scope, assignment.name@) {
        Some(name) => CollectorModel {
            definitions: state.definitions.push(
                ParsedDefinitionModel {
                    fully_qualified_name: definition_name(state.current_namespaces, name),
                    location: range_of(state.source, assignment.expression_l),
                },
            ),
            ..state
        },
        None => state,
    };
    collect_optional(defined, assignment.value)
}

/// The state after a method call: the reference of the association that it
/// declares, if it declares one; then its receiver and its arguments are walked.
pub open spec fn collect_send(state: CollectorModel, call: Send) -> CollectorModel
    decreases call,
{
    let noted = match association_reference(state, call) {
        Some(reference) => CollectorModel {
            references: state.references.push(reference),
            ..state
        },
        None => state,
    };
    collect_all(collect_optional(noted, call.recv), call.args@, 0)
}

/// The state after a walk over `node`.
pub open spec fn collect(state: CollectorModel, node: Node) -> CollectorModel
    decreases node,
{
    match node {
        Node::Class(class) => collect_class(state, class),
        Node::Module(module) => collect_module(state, module),
        Node::Const(constant) => collect_const(state, constant),
        Node::Cbase(_) => state,
        Node::Casgn(assignment) => collect_casgn(state, assignment),
        Node::Send(call) => collect_send(state, call),
        Node::Kwargs(kwargs) => collect_all(state, kwargs.pairs@, 0),
        Node::Pair(pair) => collect(collect(state, *pair.key), *pair.value),
        Node::Sym(_) => state,
        Node::Str(_) => state,
        Node::Other(other) => collect_all(state, other.children@, 0),
    }
}

/// A line begins at or before each of its bytes.
pub proof fn lemma_line_start_bounds(bytes: Seq<u8>, index: int)
    requires
        0 <= index,
    ensures
        0 <= line_start(bytes, index) <= index,
    decreases index,
{
    if index > 0 && bytes[index - 1] != 10u8 {
        lemma_line_start_bounds(bytes, index - 1);
    }
}

/// `LineColLookup::get` of the crate line_col, on the table that
/// `LineColLookup::new` makes for `source`: the line and the column of the byte
/// at `index`, both counted from 1, the column in bytes. The line is one more
/// than the number of line breaks before `index`; the column counts from the
/// byte behind the last of them. The call panics for an index behind the end
/// of the text, which the precondition excludes.
#[verifier::external_body]
fn line_and_column(source: &str, index: usize) -> (r: (usize, usize))
    requires
        index <= source.spec_bytes().len(),
    ensures
        r.0 == line_of(source.spec_bytes(), index as int),
        r.1 == column_of(source.spec_bytes(), index as int),
{
    LineColLookup::new(source).get(index)
}

/// The span `loc` of `source` in rows and columns.
pub fn loc_to_range(loc: &Loc, source: &str) -> (r: Range)
    requires
        loc.within(source.spec_bytes().len() as int),
    ensures
        r == range_of(source.spec_bytes(), *loc),
        r.start_row >= 1,
        r.end_row >= 1,
{
    let (start_row, start_col) = line_and_column(source, loc.begin);
    let (end_row, end_col) = line_and_column(source, loc.end);
    proof {
        lemma_line_start_bounds(source.spec_bytes(), loc.begin as int);
        lemma_line_start_bounds(source.spec_bytes(), loc.end as int);
    }
    Range { start_row, start_col: start_col - 1, end_row, end_col: end_col - 1 }
}

/// The name that a scope and a name spell together.
fn fetch_scoped_name(scope: &Option<Box<Node>>, name: &String) -> (r: Result<String, ParseError>)
    ensures
        match scoped_name(*scope, name@) {
            Some(spelled) => r is Ok && r->Ok_0@ == spelled,
            None => r is Err,
        },
    decreases scope,
{
    match scope {
        Some(s) => {
            let mut spelled = fetch_const_name(s)?;
            spelled.append(colons_str());
            spelled.append(name.as_str());
            Ok(spelled)
        },
        None => Ok(name.clone()),
    }
}

/// The name that a node spells as a constant.
pub fn fetch_const_name(node: &Node) -> (r: Result<String, ParseError>)
    ensures
        match const_name(*node) {
            Some(spelled) => r is Ok && r->Ok_0@ == spelled,
            None => r is Err,
        },
    decreases node,
{
    match node {
        Node::Const(const_node) => fetch_const_const_name(const_node),
        Node::Cbase(_) => Ok(String::new()),
        _ => Err(ParseError::Metaprogramming),
    }
}

/// The name that a constant is written with, its scope included.
pub fn fetch_const_const_name(node: &Const) -> (r: Result<String, ParseError>)
    ensures
        match scoped_name(node.scope, node.name@) {
            Some(spelled) => r is Ok && r->Ok_0@ == spelled,
            None => r is Err,
        },
    decreases node,
{
    fetch_scoped_name(&node.scope, &node.name)
}

/// The name that an assignment gives to its constant, the scope included.
pub fn fetch_casgn_name(node: &Casgn) -> (r: Result<String, ParseError>)
    ensures
        match scoped_name(node.scope, node.name@) {
            Some(spelled) => r is Ok && r->Ok_0@ == spelled,
            None => r is Err,
        },
{
    fetch_scoped_name(&node.scope, &node.name)
}

/// The span of a node that names a constant.
pub fn fetch_node_location(node: &Node) -> (r: Loc)
    ensures
        r == span_of(*node),
{
    match node {
        Node::Const(const_node) => const_node.expression_l,
        Node::Cbase(cbase) => cbase.expression_l,
        _ => Loc { begin: 0, end: 0 },
    }
}

/// The fully qualified name of `name` declared inside `namespaces`.
fn fully_qualified(name: &String, namespaces: &Vec<String>) -> (r: String)
    ensures
        r@ == definition_name(namespaces.deep_view(), name@),
{
    let sep = colons_str();
    let mut out = String::from_str(sep);
    if namespaces.len() > 0 {
        let scope = join_strings(namespaces, sep);
        out.append(scope.as_str());
        out.append(sep);
    }
    out.append(name.as_str());
    proof {
        let all = namespaces.deep_view().push(name@);
        assert(all.drop_last() =~= namespaces.deep_view());
        if namespaces.len() > 0 {
            assert(out@ =~= colons() + (join(namespaces.deep_view(), colons()) + colons()
                + name@));
        } else {
            assert(out@ =~= colons() + name@);
        }
    }
    out
}

/// The definition of the constant `current_nesting`, declared at `location` inside `parent_nesting`.
pub fn get_definition_from(
    current_nesting: &String,
    parent_nesting: &Vec<String>,
    location: &Range,
) -> (r: ParsedDefinition)
    ensures
        r.deep_view() == (ParsedDefinitionModel {
            fully_qualified_name: definition_name(parent_nesting.deep_view(), current_nesting@),
            location: *location,
        }),
{
    ParsedDefinition {
        fully_qualified_name: fully_qualified(current_nesting, parent_nesting),
        location: *location,
    }
}

/// The definition that an assignment to a constant makes inside `current_namespaces`.
pub fn get_constant_assignment_definition(
    node: &Casgn,
    current_namespaces: &Vec<String>,
    source: &str,
) -> (r: Option<ParsedDefinition>)
    requires
        node.expression_l.within(source.spec_bytes().len() as int),
    ensures
        r.deep_view() == match scoped_name(node.scope, node.name@) {
            Some(name) => Some(
                ParsedDefinitionModel {
                    fully_qualified_name: definition_name(current_namespaces.deep_view(), name),
                    location: range_of(source.spec_bytes(), node.expression_l),
                },
            ),
            None => None,
        },
{
    match fetch_casgn_name(node) {
        Err(_) => None,
        Ok(name) => {
            let location = loc_to_range(&node.expression_l, source);
            Some(get_definition_from(&name, current_namespaces, &location))
        },
    }
}

/// The class that the first `class_name: "..."` among the keyword arguments names.
pub fn extract_class_name_from_kwargs(kwargs: &Kwargs) -> (r: Option<String>)
    ensures
        r.deep_view() == class_name_of_pairs(kwargs.pairs@, 0),
{
    let class_name = "class_name";
    let mut i: usize = 0;
    while i < kwargs.pairs.len()
        invariant
            i <= kwargs.pairs.len(),
            class_name@ == "class_name"@,
            class_name_of_pairs(kwargs.pairs@, 0) == class_name_of_pairs(kwargs.pairs@, i as int),
        decreases kwargs.pairs.len() - i,
    {
        if let Node::Pair(pair) = &kwargs.pairs[i] {
            if let Node::Sym(k) = &*pair.key {
                if same_text(k.name.as_str(), class_name) {
                    if let Node::Str(v) = &*pair.value {
                        return Some(v.value.clone());
                    }
                }
            }
        }
        i += 1;
    }
    None
}

/// The class that the keyword arguments among `args` name with `class_name: "..."`.
fn class_name_from_args(args: &Vec<Node>) -> (r: Option<String>)
    ensures
        r.deep_view() == class_name_of_args(args@, args.len() as int),
{
    let mut i: usize = args.len();
    while i > 0
        invariant
            i <= args.len(),
            class_name_of_args(args@, args.len() as int) == class_name_of_args(args@, i as int),
        decreases i,
    {
        if let Node::Kwargs(kwargs) = &args[i - 1] {
            if let Some(found) = extract_class_name_from_kwargs(kwargs) {
                return Some(found);
            }
        }
        i -= 1;
    }
    None
}

/// Does a call of `method` declare an association?
fn is_association(method: &String, custom_associations: &Vec<String>) -> (r: bool)
    ensures
        r == is_association_method(method@, custom_associations.deep_view()),
{
    let name = method.as_str();
    if same_text(name, "has_one") || same_text(name, "has_many") || same_text(name, "belongs_to")
        || same_text(name, "has_and_belongs_to_many") {
        return true;
    }
    contains_text(custom_associations, method)
}

/// The reference that a method call gives rise to by declaring an
/// association: `belongs_to :accounting_firm` refers to `AccountingFirm`, and
/// `has_many :keys, class_name: "Api::Key"` to `Api::Key`.
pub fn get_reference_from_active_record_association(
    node: &Send,
    current_namespaces: &Vec<String>,
    source: &str,
    custom_associations: &Vec<String>,
    acronyms: &Vec<String>,
) -> (r: Option<UnresolvedReference>)
    requires
        node.expression_l.within(source.spec_bytes().len() as int),
    ensures
        r.deep_view() == if is_association_method(
            node.method_name@,
            custom_associations.deep_view(),
        ) {
            match association_target(node.args@, acronyms.deep_view()) {
                Some(name) => Some(
                    UnresolvedReferenceModel {
                        name,
                        namespace_path: current_namespaces.deep_view(),
                        location: range_of(source.spec_bytes(), node.expression_l),
                    },
                ),
                None => None,
            }
        } else {
            None
        },
{
    if !is_association(&node.method_name, custom_associations) {
        return None;
    }
    let mut name: Option<String> = class_name_from_args(&node.args);
    if name.is_none() && node.args.len() > 0 {
        if let Node::Sym(d) = &node.args[0] {
            // By convention the class of an association is named by the singular of its symbol.
            name = Some(to_class_case(d.name.as_str(), true, acronyms));
        }
    }
    match name {
        Some(unwrapped_name) => Some(
            UnresolvedReference {
                name: unwrapped_name,
                namespace_path: clone_strings(current_namespaces),
                location: loc_to_range(&node.expression_l, source),
            },
        ),
        None => None,
    }
}

impl<'a> ReferenceCollector<'a> {
    /// A collector at the start of a walk over the tree parsed from `source`.
    pub fn new(source: &'a str, custom_associations: Vec<String>, acronyms: Vec<String>) -> (r:
        Self)
        ensures
            r.deep_view() == (CollectorModel {
                references: Seq::empty(),
                definitions: Seq::empty(),
                current_namespaces: Seq::empty(),
                source: source.spec_bytes(),
                in_superclass: false,
                superclasses: Seq::empty(),
                custom_associations: custom_associations.deep_view(),
                acronyms: acronyms.deep_view(),
            }),
            r.source == source,
    {
        let r = ReferenceCollector {
            references: Vec::new(),
            definitions: Vec::new(),
            current_namespaces: Vec::new(),
            source,
            in_superclass: false,
            superclasses: Vec::new(),
            custom_associations,
            acronyms,
        };
        assert(r.references.deep_view() =~= Seq::empty());
        assert(r.definitions.deep_view() =~= Seq::empty());
        assert(r.current_namespaces.deep_view() =~= Seq::empty());
        assert(r.superclasses.deep_view() =~= Seq::empty());
        r
    }

    /// The nesting that a reference to `name` is reported with.
    fn nesting_for(&self, name: &String) -> (r: Vec<String>)
        ensures
            r.deep_view() == nesting_of(self.deep_view(), name@),
    {
        let ghost superclasses = self.superclasses.deep_view();
        let mut i: usize = 0;
        while i < self.superclasses.len()
            invariant
                i <= self.superclasses.len(),
                superclasses == self.superclasses.deep_view(),
                first_named(superclasses, name@, 0) == first_named(superclasses, name@, i as int),
            decreases self.superclasses.len() - i,
        {
            let superclass = &self.superclasses[i];
            assert(superclasses[i as int] == superclass.deep_view());
            if superclass.name == *name {
                return clone_strings(&superclass.namespace_path);
            }
            i += 1;
        }
        let ghost namespaces = self.current_namespaces.deep_view();
        let mut out: Vec<String> = Vec::new();
        let mut i: usize = 0;
        assert(out.deep_view() =~= without(namespaces.take(0), name@));
        while i < self.current_namespaces.len()
            invariant
                i <= self.current_namespaces.len(),
                namespaces == self.current_namespaces.deep_view(),
                out.deep_view() == without(namespaces.take(i as int), name@),
            decreases self.current_namespaces.len() - i,
        {
            let namespace = &self.current_namespaces[i];
            let ghost before = out.deep_view();
            proof {
                assert(namespaces.take(i + 1).drop_last() =~= namespaces.take(i as int));
                assert(namespaces.take(i + 1).last() == namespace@);
            }
            if *namespace != *name {
                out.push(namespace.clone());
                assert(out.deep_view() =~= before.push(namespace@));
            }
            i += 1;
        }
        assert(namespaces.take(self.current_namespaces.len() as int) =~= namespaces);
        out
    }

    /// Records the declaration of `name` at `location` and enters it.
    fn enter(&mut self, name: String, location: Range)
        ensures
            final(self).deep_view() == entered(old(self).deep_view(), name@, location),
            final(self).source == old(self).source,
    {
        let definition = get_definition_from(&name, &self.current_namespaces, &location);
        let reference = UnresolvedReference {
            name: definition.fully_qualified_name.clone(),
            namespace_path: clone_strings(&self.current_namespaces),
            location,
        };
        let ghost before = self.deep_view();
        self.definitions.push(definition);
        // A declaration also counts as a reference to what it declares.
        self.references.push(reference);
        self.current_namespaces.push(name);
        proof {
            let expected = entered(before, name@, location);
            assert(self.definitions.deep_view() =~= expected.definitions);
            assert(self.references.deep_view() =~= expected.references);
            assert(self.current_namespaces.deep_view() =~= expected.current_namespaces);
        }
    }

    /// Leaves the innermost namespace.
    fn leave(&mut self)
        ensures
            final(self).deep_view() == (CollectorModel {
                current_namespaces: popped(old(self).deep_view().current_namespaces),
                ..old(self).deep_view()
            }),
            final(self).source == old(self).source,
    {
        let ghost before = self.current_namespaces.deep_view();
        self.current_namespaces.pop();
        assert(self.current_namespaces.deep_view() =~= popped(before));
    }

    /// Forgets the superclasses behind the first `len`.
    fn forget_superclasses(&mut self, len: usize)
        ensures
            final(self).deep_view() == (CollectorModel {
                superclasses: truncated(old(self).deep_view().superclasses, len as int),
                ..old(self).deep_view()
            }),
            final(self).source == old(self).source,
    {
        let ghost before = self.superclasses.deep_view();
        while self.superclasses.len() > len
            invariant
                self.superclasses.len() <= before.len(),
                self.superclasses.len() >= len || self.superclasses.len() == before.len(),
                self.superclasses.deep_view() == before.take(self.superclasses.len() as int),
                self.references == old(self).references,
                self.definitions == old(self).definitions,
                self.current_namespaces == old(self).current_namespaces,
                self.source == old(self).source,
                self.in_superclass == old(self).in_superclass,
                self.custom_associations == old(self).custom_associations,
                self.acronyms == old(self).acronyms,
            decreases self.superclasses.len(),
        {
            let ghost longer = self.superclasses.deep_view();
            self.superclasses.pop();
            assert(self.superclasses.deep_view() =~= longer.drop_last());
            assert(longer.drop_last() =~= before.take(self.superclasses.len() as int));
        }
        assert(before.take(before.len() as int) =~= before);
    }

    /// Walks a class declaration.
    pub fn on_class(&mut self, node: &Class)
        requires
            node.name.within(old(self).source.spec_bytes().len() as int),
            optional_within(node.superclass, old(self).source.spec_bytes().len() as int),
            optional_within(node.body, old(self).source.spec_bytes().len() as int),
        ensures
            final(self).deep_view() == collect_class(old(self).deep_view(), *node),
            final(self).source == old(self).source,
        decreases node,
    {
        let namespace = match fetch_const_name(&node.name) {
            Ok(name) => name,
            Err(_) => {
                return ;
            },
        };
        let kept = self.superclasses.len();
        if let Some(inner) = &node.superclass {
            self.in_superclass = true;
            self.visit(inner);
            self.in_superclass = false;
        }
        let definition_loc = fetch_node_location(&node.name);
        let location = loc_to_range(&definition_loc, self.source);
        self.enter(namespace, location);
        if let Some(inner) = &node.body {
            self.visit(inner);
        }
        self.leave();
        self.forget_superclasses(kept);
    }

    /// Walks a module declaration.
    pub fn on_module(&mut self, node: &Module)
        requires
            node.name.within(old(self).source.spec_bytes().len() as int),
            optional_within(node.body, old(self).source.spec_bytes().len() as int),
        ensures
            final(self).deep_view() == collect_module(old(self).deep_view(), *node),
            final(self).source == old(self).source,
        decreases node,
    {
        let namespace = match fetch_const_name(&node.name) {
            Ok(name) => name,
            Err(_) => {
                return ;
            },
        };
        let definition_loc = fetch_node_location(&node.name);
        let location = loc_to_range(&definition_loc, self.source);
        self.enter(namespace, location);
        if let Some(inner) = &node.body {
            self.visit(inner);
        }
        self.leave();
    }

    /// Walks a constant.
    pub fn on_const(&mut self, node: &Const)
        requires
            node.expression_l.within(old(self).source.spec_bytes().len() as int),
        ensures
            final(self).deep_view() == collect_const(old(self).deep_view(), *node),
            final(self).source == old(self).source,
    {
        let name = match fetch_const_const_name(node) {
            Ok(name) => name,
            Err(_) => {
                return ;
            },
        };
        let ghost before = self.deep_view();
        if self.in_superclass {
            let superclass = SuperclassReference {
                name: name.clone(),
                namespace_path: clone_strings(&self.current_namespaces),
            };
            self.superclasses.push(superclass);
            assert(self.superclasses.deep_view() =~= before.superclasses.push(
                superclass.deep_view(),
            ));
        }
        // A reference is not reported inside a namespace or a superclass of its own name.
        let namespace_path = self.nesting_for(&name);
        let reference = UnresolvedReference {
            name,
            namespace_path,
            location: loc_to_range(&node.expression_l, self.source),
        };
        let ghost noted = self.deep_view();
        self.references.push(reference);
        assert(self.references.deep_view() =~= noted.references.push(reference.deep_view()));
    }

    /// Walks an assignment to a constant.
    pub fn on_casgn(&mut self, node: &Casgn)
        requires
            node.expression_l.within(old(self).source.spec_bytes().len() as int),
            optional_within(node.value, old(self).source.spec_bytes().len() as int),
        ensures
            final(self).deep_view() == collect_casgn(old(self).deep_view(), *node),
            final(self).source == old(self).source,
        decreases node,
    {
        let definition = get_constant_assignment_definition(
            node,
            &self.current_namespaces,
            self.source,
        );
        if let Some(definition) = definition {
            let ghost before = self.definitions.deep_view();
            self.definitions.push(definition);
            assert(self.definitions.deep_view() =~= before.push(definition.deep_view()));
        }
        if let Some(v) = &node.value {
            self.visit(v);
        }
    }

    /// Walks a method call.
    pub fn on_send(&mut self, node: &Send)
        requires
            node.expression_l.within(old(self).source.spec_bytes().len() as int),
            optional_within(node.recv, old(self).source.spec_bytes().len() as int),
            all_within(node.args@, 0, old(self).source.spec_bytes().len() as int),
        ensures
            final(self).deep_view() == collect_send(old(self).deep_view(), *node),
            final(self).source == old(self).source,
        decreases node,
    {
        let association_reference = get_reference_from_active_record_association(
            node,
            &self.current_namespaces,
            self.source,
            &self.custom_associations,
            &self.acronyms,
        );
        if let Some(association_reference) = association_reference {
            let ghost before = self.references.deep_view();
            self.references.push(association_reference);
            assert(self.references.deep_view() =~= before.push(
                association_reference.deep_view(),
            ));
        }
        if let Some(recv) = &node.recv {
            self.visit(recv);
        }
        self.visit_all(&node.args);
    }

    /// Walks the nodes one after the other.
    pub fn visit_all(&mut self, nodes: &Vec<Node>)
        requires
            all_within(nodes@, 0, old(self).source.spec_bytes().len() as int),
        ensures
            final(self).deep_view() == collect_all(old(self).deep_view(), nodes@, 0),
            final(self).source == old(self).source,
        decreases nodes,
    {
        let mut i: usize = 0;
        while i < nodes.len()
            invariant
                i <= nodes.len(),
                self.source == old(self).source,
                all_within(nodes@, i as int, self.source.spec_bytes().len() as int),
                collect_all(old(self).deep_view(), nodes@, 0) == collect_all(
                    self.deep_view(),
                    nodes@,
                    i as int,
                ),
            decreases nodes.len() - i,
        {
            self.visit(&nodes[i]);
            i += 1;
        }
    }

    /// Walks the tree below `node` and adds to the collector the definitions
    /// and the references found there, in source order but for the constants of a
    /// superclass, which come before the class that names them.
    pub fn visit(&mut self, node: &Node)
        requires
            node.within(old(self).source.spec_bytes().len() as int),
        ensures
            final(self).deep_view() == collect(old(self).deep_view(), *node),
            final(self).source == old(self).source,
        decreases node,
    {
        match node {
            Node::Class(class) => self.on_class(class),
            Node::Module(module) => self.on_module(module),
            Node::Const(constant) => self.on_const(constant),
            Node::Cbase(_) => {},
            Node::Casgn(assignment) => self.on_casgn(assignment),
            Node::Send(call) => self.on_send(call),
            Node::Kwargs(kwargs) => self.visit_all(&kwargs.pairs),
            Node::Pair(pair) => {
                self.visit(&pair.key);
                self.visit(&pair.value);
            },
            Node::Sym(_) => {},
            Node::Str(_) => {},
            Node::Other(other) => self.visit_all(&other.children),
        }
    }
}

/// Does the span begin in a row from 1 on, and not end before its beginning?
pub open spec fn is_placed(location: Range) -> bool {
    &&& location.start_row >= 1
    &&& location.start_row < location.end_row || (location.start_row == location.end_row
        && location.start_col <= location.end_col)
}

/// Does the span begin in a row from 1 on, and end behind its beginning?
pub open spec fn is_filled(location: Range) -> bool {
    &&& location.start_row >= 1
    &&& location.start_row < location.end_row || (location.start_row == location.end_row
        && location.start_col < location.end_col)
}

/// Does the reference have a place in the text, and with `names` a name,
/// and with `filled` a span that is not empty?
pub open spec fn is_sound(reference: UnresolvedReferenceModel, names: bool, filled: bool) -> bool {
    &&& is_placed(reference.location)
    &&& names ==> reference.name.len() > 0
    &&& filled ==> is_filled(reference.location)
}

/// Are all the references sound?
pub open spec fn all_sound(
    references: Seq<UnresolvedReferenceModel>,
    names: bool,
    filled: bool,
) -> bool {
    forall|i: int| 0 <= i < references.len() ==> is_sound(#[trigger] references[i], names, filled)
}

/// Is a span not empty?
pub open spec fn is_span(loc: Loc) -> bool {
    loc.begin < loc.end
}

/// Is what the walk reports of an optional node reported well?
pub open spec fn optional_reported_well(
    node: Option<Box<Node>>,
    custom_associations: Seq<Seq<char>>,
    acronyms: Seq<Seq<char>>,
    names: bool,
    filled: bool,
) -> bool
    decreases node,
{
    match node {
        Some(inner) => reported_well(*inner, custom_associations, acronyms, names, filled),
        None => true,
    }
}

/// Is what the walk reports of the nodes from `from` on reported well?
pub open spec fn all_reported_well(
    nodes: Seq<Node>,
    from: int,
    custom_associations: Seq<Seq<char>>,
    acronyms: Seq<Seq<char>>,
    names: bool,
    filled: bool,
) -> bool
    decreases nodes, nodes.len() - from,
{
    if 0 <= from < nodes.len() {
        reported_well(nodes[from], custom_associations, acronyms, names, filled)
            && all_reported_well(nodes, from + 1, custom_associations, acronyms, names, filled)
    } else {
        true
    }
}

/// Is every reference that the walk over the tree reports one with a name
/// (asked with `names`) and with a span that is not empty (asked with
/// `filled`)? Only what the walk meets counts: a constant that it refers to is
/// not written with an empty name, an association that it follows names no
/// empty class, and what it reports has a span that is not empty. What lies
/// inside a class or module with a computed name is not met.
pub open spec fn reported_well(
    node: Node,
    custom_associations: Seq<Seq<char>>,
    acronyms: Seq<Seq<char>>,
    names: bool,
    filled: bool,
) -> bool
    decreases node,
{
    match node {
        Node::Class(c) => const_name(*c.name) is Some ==> {
            &&& filled ==> is_span(span_of(*c.name))
            &&& optional_reported_well(c.superclass, custom_associations, acronyms, names, filled)
            &&& optional_reported_well(c.body, custom_associations, acronyms, names, filled)
        },
        Node::Module(m) => const_name(*m.name) is Some ==> {
            &&& filled ==> is_span(span_of(*m.name))
            &&& optional_reported_well(m.body, custom_associations, acronyms, names, filled)
        },
        Node::Const(c) => scoped_name(c.scope, c.name@) matches Some(name) ==> {
            &&& names ==> name.len() > 0
            &&& filled ==> is_span(c.expression_l)
        },
        Node::Cbase(_) => true,
        Node::Casgn(c) => optional_reported_well(
            c.value,
            custom_associations,
            acronyms,
            names,
            filled,
        ),
        Node::Send(s) => {
            &&& is_association_method(s.method_name@, custom_associations) ==> (
            association_target(s.args@, acronyms) matches Some(name) ==> {
                &&& names ==> name.len() > 0
                &&& filled ==> is_span(s.expression_l)
            })
            &&& optional_reported_well(s.recv, custom_associations, acronyms, names, filled)
            &&& all_reported_well(s.args@, 0, custom_associations, acronyms, names, filled)
        },
        Node::Kwargs(k) => all_reported_well(
            k.pairs@,
            0,
            custom_associations,
            acronyms,
            names,
            filled,
        ),
        Node::Pair(p) => reported_well(*p.key, custom_associations, acronyms, names, filled)
            && reported_well(*p.value, custom_associations, acronyms, names, filled),
        Node::Sym(_) => true,
        Node::Str(_) => true,
        Node::Other(o) => all_reported_well(
            o.children@,
            0,
            custom_associations,
            acronyms,
            names,
            filled,
        ),
    }
}

/// Further on in a text there are no fewer line breaks before, and on the
/// same line the column is no smaller.
pub proof fn lemma_lines_grow(bytes: Seq<u8>, a: int, b: int)
    requires
        0 <= a <= b,
    ensures
        newlines_before(bytes, a) <= newlines_before(bytes, b),
        newlines_before(bytes, b) <= b,
        newlines_before(bytes, a) == newlines_before(bytes, b) ==> line_start(bytes, a)
            == line_start(bytes, b),
    decreases b,
{
    if b > 0 {
        if a < b {
            lemma_lines_grow(bytes, a, b - 1);
        } else {
            lemma_lines_grow(bytes, a - 1, b - 1);
        }
    }
}

/// The rows and columns of a span of the text begin in a row from 1 on and
/// do not end before their beginning; those of a span that is not empty end
/// behind their beginning.
pub proof fn lemma_range_is_placed(source: Seq<u8>, loc: Loc)
    requires
        loc.within(source.len() as int),
        source.len() < usize::MAX,
    ensures
        is_placed(range_of(source, loc)),
        is_span(loc) ==> is_filled(range_of(source, loc)),
{
    lemma_lines_grow(source, loc.begin as int, loc.end as int);
    lemma_lines_grow(source, 0, loc.begin as int);
    lemma_line_start_bounds(source, loc.begin as int);
    lemma_line_start_bounds(source, loc.end as int);
}

/// Do all the definitions declare their constants from the root namespace on,
/// under names that begin with `::`?
pub open spec fn all_absolute(definitions: Seq<ParsedDefinitionModel>) -> bool {
    forall|i: int|
        0 <= i < definitions.len() ==> crate::text::has_prefix(
            (#[trigger] definitions[i]).fully_qualified_name,
            colons(),
        )
}

/// Definitions under absolute names stay so when one under an absolute name is added.
proof fn lemma_push_absolute(
    definitions: Seq<ParsedDefinitionModel>,
    namespaces: Seq<Seq<char>>,
    name: Seq<char>,
    location: Range,
)
    requires
        all_absolute(definitions),
    ensures
        all_absolute(
            definitions.push(
                ParsedDefinitionModel {
                    fully_qualified_name: definition_name(namespaces, name),
                    location,
                },
            ),
        ),
{
    let added = ParsedDefinitionModel {
        fully_qualified_name: definition_name(namespaces, name),
        location,
    };
    let longer = definitions.push(added);
    assert(definition_name(namespaces, name).take(2) =~= colons());
    assert forall|i: int| 0 <= i < longer.len() implies crate::text::has_prefix(
        (#[trigger] longer[i]).fully_qualified_name,
        colons(),
    ) by {
        if i < definitions.len() {
            assert(longer[i] == definitions[i]);
        }
    }
}

/// What holds of a state from which a walk is sound: its references are
/// sound, its definitions go by absolute names, and its text is shorter than
/// the largest number.
pub open spec fn sound_state(state: CollectorModel, names: bool, filled: bool) -> bool {
    all_sound(state.references, names, filled) && all_absolute(state.definitions)
        && state.source.len() < usize::MAX
}

/// The state after a walk differs from the state before it in nothing that
/// the walk is run with, and its references and definitions are sound if they were before.
pub open spec fn walked_soundly(
    before: CollectorModel,
    after: CollectorModel,
    names: bool,
    filled: bool,
) -> bool {
    &&& after.source == before.source
    &&& after.custom_associations == before.custom_associations
    &&& after.acronyms == before.acronyms
    &&& all_sound(after.references, names, filled)
    &&& all_absolute(after.definitions)
}

/// Sound references stay sound when a sound one is added.
proof fn lemma_push_sound(
    references: Seq<UnresolvedReferenceModel>,
    reference: UnresolvedReferenceModel,
    names: bool,
    filled: bool,
)
    requires
        all_sound(references, names, filled),
        is_sound(reference, names, filled),
    ensures
        all_sound(references.push(reference), names, filled),
{
    let longer = references.push(reference);
    assert forall|i: int| 0 <= i < longer.len() implies is_sound(
        #[trigger] longer[i],
        names,
        filled,
    ) by {
        if i < references.len() {
            assert(longer[i] == references[i]);
        }
    }
}

/// A fully qualified name is not empty.
proof fn lemma_definition_name_not_empty(namespaces: Seq<Seq<char>>, name: Seq<char>)
    ensures
        definition_name(namespaces, name).len() >= 2,
{
    assert(colons().len() == 2);
}

/// A span of a node that names a constant is a span of the text.
proof fn lemma_span_within(node: Node, len: int)
    requires
        node.within(len),
        const_name(node) is Some,
    ensures
        span_of(node).within(len),
{
}

proof fn lemma_collect_optional_sound(
    state: CollectorModel,
    node: Option<Box<Node>>,
    names: bool,
    filled: bool,
)
    requires
        sound_state(state, names, filled),
        optional_within(node, state.source.len() as int),
        optional_reported_well(node, state.custom_associations, state.acronyms, names, filled),
    ensures
        walked_soundly(state, collect_optional(state, node), names, filled),
    decreases node,
{
    match node {
        Some(inner) => lemma_collect_sound(state, *inner, names, filled),
        None => {},
    }
}

proof fn lemma_collect_all_sound(
    state: CollectorModel,
    nodes: Seq<Node>,
    from: int,
    names: bool,
    filled: bool,
)
    requires
        sound_state(state, names, filled),
        0 <= from,
        all_within(nodes, from, state.source.len() as int),
        all_reported_well(nodes, from, state.custom_associations, state.acronyms, names, filled),
    ensures
        walked_soundly(state, collect_all(state, nodes, from), names, filled),
    decreases nodes, nodes.len() - from,
{
    if from < nodes.len() {
        lemma_collect_sound(state, nodes[from], names, filled);
        lemma_collect_all_sound(collect(state, nodes[from]), nodes, from + 1, names, filled);
    }
}

proof fn lemma_entered_sound(
    state: CollectorModel,
    name: Seq<char>,
    loc: Loc,
    names: bool,
    filled: bool,
)
    requires
        sound_state(state, names, filled),
        loc.within(state.source.len() as int),
        filled ==> is_span(loc),
    ensures
        walked_soundly(state, entered(state, name, range_of(state.source, loc)), names, filled),
{
    lemma_range_is_placed(state.source, loc);
    lemma_definition_name_not_empty(state.current_namespaces, name);
    let location = range_of(state.source, loc);
    lemma_push_absolute(state.definitions, state.current_namespaces, name, location);
    lemma_push_sound(
        state.references,
        UnresolvedReferenceModel {
            name: definition_name(state.current_namespaces, name),
            namespace_path: state.current_namespaces,
            location,
        },
        names,
        filled,
    );
}

proof fn lemma_collect_class_sound(state: CollectorModel, class: Class, names: bool, filled: bool)
    requires
        sound_state(state, names, filled),
        Node::Class(class).within(state.source.len() as int),
        reported_well(
            Node::Class(class),
            state.custom_associations,
            state.acronyms,
            names,
            filled,
        ),
    ensures
        walked_soundly(state, collect_class(state, class), names, filled),
    decreases class,
{
    match const_name(*class.name) {
        None => {},
        Some(name) => {
            let above = match class.superclass {
                Some(superclass) => CollectorModel {
                    in_superclass: false,
                    ..collect(CollectorModel { in_superclass: true, ..state }, *superclass)
                },
                None => state,
            };
            let len = state.source.len() as int;
            assert(optional_within(class.superclass, len));
            assert(optional_within(class.body, len));
            assert(optional_reported_well(
                class.superclass,
                state.custom_associations,
                state.acronyms,
                names,
                filled,
            ));
            assert(optional_reported_well(
                class.body,
                state.custom_associations,
                state.acronyms,
                names,
                filled,
            ));
            match class.superclass {
                Some(superclass) => {
                    assert(superclass.within(len));
                    assert(reported_well(
                        *superclass,
                        state.custom_associations,
                        state.acronyms,
                        names,
                        filled,
                    ));
                    lemma_collect_sound(
                        CollectorModel { in_superclass: true, ..state },
                        *superclass,
                        names,
                        filled,
                    );
                },
                None => {},
            }
            lemma_span_within(*class.name, state.source.len() as int);
            lemma_entered_sound(above, name, span_of(*class.name), names, filled);
            let inside = entered(above, name, range_of(state.source, span_of(*class.name)));
            lemma_collect_optional_sound(inside, class.body, names, filled);
        },
    }
}

proof fn lemma_collect_module_sound(
    state: CollectorModel,
    module: Module,
    names: bool,
    filled: bool,
)
    requires
        sound_state(state, names, filled),
        Node::Module(module).within(state.source.len() as int),
        reported_well(
            Node::Module(module),
            state.custom_associations,
            state.acronyms,
            names,
            filled,
        ),
    ensures
        walked_soundly(state, collect_module(state, module), names, filled),
    decreases module,
{
    match const_name(*module.name) {
        None => {},
        Some(name) => {
            assert(optional_within(module.body, state.source.len() as int));
            assert(optional_reported_well(
                module.body,
                state.custom_associations,
                state.acronyms,
                names,
                filled,
            ));
            lemma_span_within(*module.name, state.source.len() as int);
            lemma_entered_sound(state, name, span_of(*module.name), names, filled);
            let inside = entered(state, name, range_of(state.source, span_of(*module.name)));
            lemma_collect_optional_sound(inside, module.body, names, filled);
        },
    }
}

proof fn lemma_collect_send_sound(state: CollectorModel, call: Send, names: bool, filled: bool)
    requires
        sound_state(state, names, filled),
        Node::Send(call).within(state.source.len() as int),
        reported_well(Node::Send(call), state.custom_associations, state.acronyms, names, filled),
    ensures
        walked_soundly(state, collect_send(state, call), names, filled),
    decreases call,
{
    let noted = match association_reference(state, call) {
        Some(reference) => CollectorModel {
            references: state.references.push(reference),
            ..state
        },
        None => state,
    };
    lemma_range_is_placed(state.source, call.expression_l);
    match association_reference(state, call) {
        Some(reference) => lemma_push_sound(state.references, reference, names, filled),
        None => {},
    }
    assert(optional_within(call.recv, state.source.len() as int));
    assert(optional_reported_well(
        call.recv,
        state.custom_associations,
        state.acronyms,
        names,
        filled,
    ));
    lemma_collect_optional_sound(noted, call.recv, names, filled);
    lemma_collect_all_sound(collect_optional(noted, call.recv), call.args@, 0, names, filled);
}

/// Every reference that a walk adds has a place in the text: it begins in a
/// row from 1 on and does not end before its beginning; and every definition
/// that it adds has a name that begins with `::`. This holds of every tree
/// whose spans are spans of the text. Of a tree whose walk is reported well,
/// every reference moreover has a name that is not empty (with `names`) and
/// ends behind its beginning (with `filled`).
pub proof fn lemma_collect_sound(state: CollectorModel, node: Node, names: bool, filled: bool)
    requires
        sound_state(state, names, filled),
        node.within(state.source.len() as int),
        reported_well(node, state.custom_associations, state.acronyms, names, filled),
    ensures
        walked_soundly(state, collect(state, node), names, filled),
    decreases node,
{
    match node {
        Node::Class(class) => {
            lemma_collect_class_sound(state, class, names, filled);
        },
        Node::Module(module) => {
            lemma_collect_module_sound(state, module, names, filled);
        },
        Node::Const(constant) => {
            lemma_range_is_placed(state.source, constant.expression_l);
            match scoped_name(constant.scope, constant.name@) {
                Some(name) => {
                    let noted = if state.in_superclass {
                        CollectorModel {
                            superclasses: state.superclasses.push(
                                SuperclassReferenceModel {
                                    name,
                                    namespace_path: state.current_namespaces,
                                },
                            ),
                            ..state
                        }
                    } else {
                        state
                    };
                    lemma_push_sound(
                        noted.references,
                        UnresolvedReferenceModel {
                            name,
                            namespace_path: nesting_of(noted, name),
                            location: range_of(state.source, constant.expression_l),
                        },
                        names,
                        filled,
                    );
                },
                None => {},
            }
        },
        Node::Cbase(_) => {},
        Node::Casgn(assignment) => {
            let defined = match scoped_name(assignment.scope, assignment.name@) {
                Some(name) => CollectorModel {
                    definitions: state.definitions.push(
                        ParsedDefinitionModel {
                            fully_qualified_name: definition_name(state.current_namespaces, name),
                            location: range_of(state.source, assignment.expression_l),
                        },
                    ),
                    ..state
                },
                None => state,
            };
            match scoped_name(assignment.scope, assignment.name@) {
                Some(name) => lemma_push_absolute(
                    state.definitions,
                    state.current_namespaces,
                    name,
                    range_of(state.source, assignment.expression_l),
                ),
                None => {},
            }
            assert(optional_within(assignment.value, state.source.len() as int));
            assert(optional_reported_well(
                assignment.value,
                state.custom_associations,
                state.acronyms,
                names,
                filled,
            ));
            lemma_collect_optional_sound(defined, assignment.value, names, filled);
            assert(collect_casgn(state, assignment) == collect_optional(
                defined,
                assignment.value,
            ));
        },
        Node::Send(call) => {
            lemma_collect_send_sound(state, call, names, filled);
        },
        Node::Kwargs(kwargs) => {
            lemma_collect_all_sound(state, kwargs.pairs@, 0, names, filled);
        },
        Node::Pair(pair) => {
            lemma_collect_sound(state, *pair.key, names, filled);
            lemma_collect_sound(collect(state, *pair.key), *pair.value, names, filled);
        },
        Node::Sym(_) => {},
        Node::Str(_) => {},
        Node::Other(other) => {
            lemma_collect_all_sound(state, other.children@, 0, names, filled);
        },
    }
}

proof fn lemma_optional_asks_nothing(
    node: Option<Box<Node>>,
    custom_associations: Seq<Seq<char>>,
    acronyms: Seq<Seq<char>>,
)
    ensures
        optional_reported_well(node, custom_associations, acronyms, false, false),
    decreases node,
{
    match node {
        Some(inner) => lemma_asks_nothing(*inner, custom_associations, acronyms),
        None => {},
    }
}

proof fn lemma_all_ask_nothing(
    nodes: Seq<Node>,
    from: int,
    custom_associations: Seq<Seq<char>>,
    acronyms: Seq<Seq<char>>,
)
    requires
        0 <= from,
    ensures
        all_reported_well(nodes, from, custom_associations, acronyms, false, false),
    decreases nodes, nodes.len() - from,
{
    if from < nodes.len() {
        lemma_asks_nothing(nodes[from], custom_associations, acronyms);
        lemma_all_ask_nothing(nodes, from + 1, custom_associations, acronyms);
    }
}

/// Where neither names nor spans that are not empty are asked for, every tree is reported well.
pub proof fn lemma_asks_nothing(
    node: Node,
    custom_associations: Seq<Seq<char>>,
    acronyms: Seq<Seq<char>>,
)
    ensures
        reported_well(node, custom_associations, acronyms, false, false),
    decreases node,
{
    match node {
        Node::Class(c) => {
            lemma_optional_asks_nothing(c.superclass, custom_associations, acronyms);
            lemma_optional_asks_nothing(c.body, custom_associations, acronyms);
        },
        Node::Module(m) => {
            lemma_optional_asks_nothing(m.body, custom_associations, acronyms);
        },
        Node::Casgn(c) => {
            lemma_optional_asks_nothing(c.value, custom_associations, acronyms);
        },
        Node::Send(s) => {
            lemma_optional_asks_nothing(s.recv, custom_associations, acronyms);
            lemma_all_ask_nothing(s.args@, 0, custom_associations, acronyms);
        },
        Node::Kwargs(k) => {
            lemma_all_ask_nothing(k.pairs@, 0, custom_associations, acronyms);
        },
        Node::Pair(p) => {
            lemma_asks_nothing(*p.key, custom_associations, acronyms);
            lemma_asks_nothing(*p.value, custom_associations, acronyms);
        },
        Node::Other(o) => {
            lemma_all_ask_nothing(o.children@, 0, custom_associations, acronyms);
        },
        _ => {},
    }
}

} // verus!
