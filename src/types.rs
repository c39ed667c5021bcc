//! The data model: item kinds, scope paths and the events of a scanned file.

use vstd::prelude::*;
use crate::text::{chars_of, join_chars, join_spec, push_all, seq_eq, str_eq, string_of};
use vstd::string::*;

verus! {

/// The kind of an item in a scope path.
#[derive(Debug, Clone, Copy, PartialEq, Eq, Structural)]
pub enum Type {
    Struct,
    Mod,
    Enum,
    Fn,
    Const,
    Static,
    Type,
    Variant,
    Impl,
    Use,
    MacroDefinition,
    Macro,
    Trait,
    Flags,
    Unknown,
}

/// The kind that a keyword of the sidecar or of the source names; any other
/// word names a variant.
pub open spec fn type_from_spec(s: Seq<char>) -> Type {
    if s == "struct"@ {
        Type::Struct
    } else if s == "mod"@ {
        Type::Mod
    } else if s == "enum"@ {
        Type::Enum
    } else if s == "fn"@ {
        Type::Fn
    } else if s == "const"@ {
        Type::Const
    } else if s == "static"@ {
        Type::Static
    } else if s == "type"@ {
        Type::Type
    } else if s == "impl"@ {
        Type::Impl
    } else if s == "use"@ {
        Type::Use
    } else if s == "trait"@ {
        Type::Trait
    } else if s == "flags"@ {
        Type::Flags
    } else if s == "macro"@ {
        Type::Macro
    } else if s == "macro_rules"@ || s == "macro_rules!"@ {
        Type::MacroDefinition
    } else {
        Type::Variant
    }
}

/// The word with which a kind is written in the sidecar.
pub open spec fn type_label_spec(t: Type) -> Seq<char> {
    match t {
        Type::Struct => "struct"@,
        Type::Mod => "mod"@,
        Type::Enum => "enum"@,
        Type::Fn => "fn"@,
        Type::Const => "const"@,
        Type::Static => "static"@,
        Type::Type => "type"@,
        Type::Variant => "variant"@,
        Type::Impl => "impl"@,
        Type::Use => "use"@,
        Type::Trait => "trait"@,
        Type::Macro => "macro"@,
        Type::MacroDefinition => "macro"@,
        Type::Flags => "flags"@,
        Type::Unknown => "?"@,
    }
}

impl Type {
    pub fn is_macro_definition(self) -> (r: bool)
        ensures
            r == (self == Type::MacroDefinition),
    {
        match self {
            Type::MacroDefinition => true,
            _ => false,
        }
    }

    pub fn from(s: &str) -> (r: Type)
        ensures
            r == type_from_spec(s@),
    {
        if str_eq(s, "struct") {
            Type::Struct
        } else if str_eq(s, "mod") {
            Type::Mod
        } else if str_eq(s, "enum") {
            Type::Enum
        } else if str_eq(s, "fn") {
            Type::Fn
        } else if str_eq(s, "const") {
            Type::Const
        } else if str_eq(s, "static") {
            Type::Static
        } else if str_eq(s, "type") {
            Type::Type
        } else if str_eq(s, "impl") {
            Type::Impl
        } else if str_eq(s, "use") {
            Type::Use
        } else if str_eq(s, "trait") {
            Type::Trait
        } else if str_eq(s, "flags") {
            Type::Flags
        } else if str_eq(s, "macro") {
            Type::Macro
        } else if str_eq(s, "macro_rules") || str_eq(s, "macro_rules!") {
            Type::MacroDefinition
        } else {
            Type::Variant
        }
    }

    /// The word with which this kind is written in the sidecar.
    pub fn label(self) -> (r: &'static str)
        ensures
            r@ == type_label_spec(self),
    {
        match self {
            Type::Struct => "struct",
            Type::Mod => "mod",
            Type::Enum => "enum",
            Type::Fn => "fn",
            Type::Const => "const",
            Type::Static => "static",
            Type::Type => "type",
            Type::Variant => "variant",
            Type::Impl => "impl",
            Type::Use => "use",
            Type::Trait => "trait",
            Type::Macro => "macro",
            Type::MacroDefinition => "macro",
            Type::Flags => "flags",
            Type::Unknown => "?",
        }
    }
}


/// What a scope-path node stands for: its kind, its name and its arguments.
pub ghost struct NodeView {
    pub ty: Type,
    pub name: Seq<char>,
    pub args: Seq<Seq<char>>,
}

pub open spec fn strings_view(v: Seq<String>) -> Seq<Seq<char>> {
    v.map_values(|s: String| s@)
}

/// One named item of a scope path.
#[derive(Debug, Clone)]
pub struct TypeNode {
    pub ty: Type,
    pub name: String,
    pub args: Vec<String>,
}

impl View for TypeNode {
    type V = NodeView;

    open spec fn view(&self) -> NodeView {
        NodeView { ty: self.ty, name: self.name@, args: strings_view(self.args@) }
    }
}

/// An item together with the items that enclose it, outermost first.
///
/// Its view is the whole path: the enclosing items, then the item itself.
#[derive(Debug, Clone)]
pub struct TypeStruct {
    pub ty: Type,
    pub name: String,
    pub args: Vec<String>,
    pub parents: Vec<TypeNode>,
}

pub open spec fn nodes_view(v: Seq<TypeNode>) -> Seq<NodeView> {
    v.map_values(|n: TypeNode| n@)
}

impl View for TypeStruct {
    type V = Seq<NodeView>;

    open spec fn view(&self) -> Seq<NodeView> {
        nodes_view(self.parents@).push(
            NodeView { ty: self.ty, name: self.name@, args: strings_view(self.args@) },
        )
    }
}

/// The node with no kind and no name.
pub open spec fn empty_node() -> NodeView {
    NodeView { ty: Type::Unknown, name: Seq::empty(), args: Seq::empty() }
}

/// How many nodes of `v` count towards indentation: all, or, when macros are
/// ignored, those that are not macro invocations.
pub open spec fn counted_nodes(v: Seq<NodeView>, ignore_macros: bool) -> nat
    decreases v.len(),
{
    if v.len() == 0 {
        0
    } else {
        counted_nodes(v.drop_last(), ignore_macros) + if ignore_macros && v.last().ty
            == Type::Macro {
            0nat
        } else {
            1nat
        }
    }
}

/// The depth of the item at the end of path `p`: its immediate parent always
/// counts, the farther ancestors as `counted_nodes` says.
pub open spec fn depth_spec(p: Seq<NodeView>, ignore_macros: bool) -> nat {
    if p.len() <= 1 {
        0
    } else {
        1 + counted_nodes(p.subrange(0, p.len() - 2), ignore_macros)
    }
}

/// How a node is written in the sidecar: kind, a space, the name, then the
/// arguments separated by spaces.
pub open spec fn node_text(n: NodeView) -> Seq<char> {
    type_label_spec(n.ty) + seq![' '] + n.name + join_spec(n.args, seq![' '])
}

/// Whether a node is a macro invocation or definition.
pub open spec fn is_macro_node(n: NodeView) -> bool {
    n.ty == Type::Macro || n.ty == Type::MacroDefinition
}

/// The texts of the nodes of `v`, leaving out macros when `hide_macros`.
pub open spec fn kept_texts(v: Seq<NodeView>, hide_macros: bool) -> Seq<Seq<char>>
    decreases v.len(),
{
    if v.len() == 0 {
        Seq::empty()
    } else if hide_macros && is_macro_node(v.last()) {
        kept_texts(v.drop_last(), hide_macros)
    } else {
        kept_texts(v.drop_last(), hide_macros).push(node_text(v.last()))
    }
}

/// How path `p` is written in the sidecar: the nodes' texts joined by `::`,
/// without the macro ancestors when `hide_macros`.
pub open spec fn path_text_spec(p: Seq<NodeView>, hide_macros: bool) -> Seq<char> {
    join_spec(kept_texts(p.drop_last(), hide_macros).push(node_text(p.last())), seq![':', ':'])
}

pub fn clone_strings(v: &Vec<String>) -> (r: Vec<String>)
    ensures
        strings_view(r@) == strings_view(v@),
{
    let mut r: Vec<String> = Vec::new();
    let mut i: usize = 0;
    while i < v.len()
        invariant
            i <= v@.len(),
            r@.len() == i,
            forall|j: int| 0 <= j < i ==> #[trigger] r@[j]@ == v@[j]@,
        decreases v@.len() - i,
    {
        r.push(v[i].clone());
        i += 1;
    }
    assert(strings_view(r@) =~= strings_view(v@));
    r
}

pub fn strings_eq(a: &Vec<String>, b: &Vec<String>) -> (r: bool)
    ensures
        r == (strings_view(a@) == strings_view(b@)),
{
    if a.len() != b.len() {
        assert(strings_view(a@).len() != strings_view(b@).len());
        return false;
    }
    let mut i: usize = 0;
    while i < a.len()
        invariant
            a@.len() == b@.len(),
            i <= a@.len(),
            forall|j: int| 0 <= j < i ==> #[trigger] a@[j]@ == b@[j]@,
        decreases a@.len() - i,
    {
        if a[i] != b[i] {
            assert(strings_view(a@)[i as int] != strings_view(b@)[i as int]);
            return false;
        }
        i += 1;
    }
    assert(strings_view(a@) =~= strings_view(b@));
    true
}

impl TypeNode {
    pub fn duplicate(&self) -> (r: TypeNode)
        ensures
            r@ == self@,
    {
        TypeNode { ty: self.ty, name: self.name.clone(), args: clone_strings(&self.args) }
    }

    pub fn same_as(&self, o: &TypeNode) -> (r: bool)
        ensures
            r == (self@ == o@),
    {
        self.ty == o.ty && self.name == o.name && strings_eq(&self.args, &o.args)
    }
}

pub fn clone_nodes(v: &Vec<TypeNode>) -> (r: Vec<TypeNode>)
    ensures
        nodes_view(r@) == nodes_view(v@),
{
    let mut r: Vec<TypeNode> = Vec::new();
    let mut i: usize = 0;
    while i < v.len()
        invariant
            i <= v@.len(),
            r@.len() == i,
            forall|j: int| 0 <= j < i ==> #[trigger] r@[j]@ == v@[j]@,
        decreases v@.len() - i,
    {
        r.push(v[i].duplicate());
        i += 1;
    }
    assert(nodes_view(r@) =~= nodes_view(v@));
    r
}

impl TypeStruct {
    pub fn new(ty: Type, name: &str) -> (r: TypeStruct)
        ensures
            r@ == seq![NodeView { ty, name: name@, args: Seq::empty() }],
    {
        let r = TypeStruct {
            ty,
            name: String::from_str(name),
            args: Vec::new(),
            parents: Vec::new(),
        };
        assert(strings_view(r.args@) =~= Seq::empty());
        assert(r@ =~= seq![NodeView { ty, name: name@, args: Seq::empty() }]);
        r
    }

    pub fn empty() -> (r: TypeStruct)
        ensures
            r@ == seq![empty_node()],
    {
        let r = TypeStruct {
            ty: Type::Unknown,
            name: String::new(),
            args: Vec::new(),
            parents: Vec::new(),
        };
        assert(strings_view(r.args@) =~= Seq::empty());
        assert(r@ =~= seq![empty_node()]);
        r
    }

    /// The item's own node, without its ancestors.
    pub fn node(&self) -> (r: TypeNode)
        ensures
            r@ == self@.last(),
    {
        TypeNode { ty: self.ty, name: self.name.clone(), args: clone_strings(&self.args) }
    }

    pub fn duplicate(&self) -> (r: TypeStruct)
        ensures
            r@ == self@,
    {
        TypeStruct {
            ty: self.ty,
            name: self.name.clone(),
            args: clone_strings(&self.args),
            parents: clone_nodes(&self.parents),
        }
    }

    /// Whether two paths are the same, node for node.
    pub fn same_path(&self, o: &TypeStruct) -> (r: bool)
        ensures
            r == (self@ == o@),
    {
        if self.parents.len() != o.parents.len() {
            assert(self@.len() != o@.len());
            return false;
        }
        if !(self.ty == o.ty && self.name == o.name && strings_eq(&self.args, &o.args)) {
            assert(self@.last() != o@.last());
            return false;
        }
        let mut i: usize = 0;
        while i < self.parents.len()
            invariant
                self.parents@.len() == o.parents@.len(),
                i <= self.parents@.len(),
                forall|j: int| 0 <= j < i ==> #[trigger] self.parents@[j]@ == o.parents@[j]@,
            decreases self.parents@.len() - i,
        {
            if !self.parents[i].same_as(&o.parents[i]) {
                assert(self@[i as int] != o@[i as int]);
                return false;
            }
            i += 1;
        }
        assert(self@ =~= o@);
        true
    }

    /// The enclosing item, when there is one.
    pub fn parent(&self) -> (r: Option<TypeStruct>)
        ensures
            self@.len() == 1 ==> r is None,
            self@.len() > 1 ==> r is Some && r->0@ == self@.drop_last(),
    {
        let n = self.parents.len();
        if n == 0 {
            return None;
        }
        let mut parents = clone_nodes(&self.parents);
        assert(nodes_view(parents@).len() == nodes_view(self.parents@).len());
        let last = match parents.pop() {
            Some(l) => l,
            None => {
                return None;
            },
        };
        let r = TypeStruct { ty: last.ty, name: last.name, args: last.args, parents };
        assert(nodes_view(parents@) =~= nodes_view(self.parents@).drop_last());
        assert(last@ == nodes_view(self.parents@).last());
        assert(r@ =~= self@.drop_last());
        Some(r)
    }

    /// The item `child` placed directly under this one.
    pub fn child(&self, child: &TypeNode) -> (r: TypeStruct)
        ensures
            r@ == self@.push(child@),
    {
        let mut parents = clone_nodes(&self.parents);
        parents.push(self.node());
        let r = TypeStruct {
            ty: child.ty,
            name: child.name.clone(),
            args: clone_strings(&child.args),
            parents,
        };
        assert(nodes_view(parents@) =~= self@);
        assert(r@ =~= self@.push(child@));
        r
    }

    /// How deep the item lies, for indentation: the immediate parent always
    /// counts, a farther ancestor that is a macro invocation only when macros
    /// are not ignored.
    pub fn get_depth(&self, ignore_macros: bool) -> (r: usize)
        ensures
            r == depth_spec(self@, ignore_macros),
    {
        let n = self.parents.len();
        if n == 0 {
            return 0;
        }
        let mut count: usize = 0;
        let mut i: usize = 0;
        while i + 1 < n
            invariant
                n == self.parents@.len(),
                n >= 1,
                i < n,
                count == counted_nodes(nodes_view(self.parents@).subrange(0, i as int), ignore_macros),
                count <= i,
            decreases n - i,
        {
            let ghost before = nodes_view(self.parents@).subrange(0, i as int);
            assert(nodes_view(self.parents@).subrange(0, i + 1).drop_last() =~= before);
            if !(ignore_macros && self.parents[i].ty == Type::Macro) {
                count += 1;
            }
            i += 1;
        }
        assert(self@.subrange(0, self@.len() - 2) =~= nodes_view(self.parents@).subrange(0, i as int));
        count + 1
    }
}


impl TypeStruct {
    /// An item of kind `ty` named by the characters `name`, with no parent.
    pub fn from_chars(ty: Type, name: &Vec<char>) -> (r: TypeStruct)
        ensures
            r@ == seq![NodeView { ty, name: name@, args: Seq::empty() }],
    {
        let r = TypeStruct { ty, name: string_of(name.as_slice()), args: Vec::new(), parents: Vec::new() };
        assert(strings_view(r.args@) =~= Seq::empty());
        assert(r@ =~= seq![NodeView { ty, name: name@, args: Seq::empty() }]);
        r
    }
}

/// The kind that the characters `w` name, as `Type::from` reads them.
pub fn type_from_chars(w: &Vec<char>) -> (r: Type)
    ensures
        r == type_from_spec(w@),
{
    let s = string_of(w.as_slice());
    Type::from(s.as_str())
}

/// What an event stands for.
pub ghost enum EventView {
    Comment(Seq<char>),
    FileComment(Seq<char>),
    Type(Seq<NodeView>),
    InScope,
    OutScope,
}

/// A structural event of a scanned file.
#[derive(Debug, Clone)]
pub enum EventType {
    /// A line of an outer doc comment.
    Comment(String),
    /// A line of an inner (file or module) doc comment.
    FileComment(String),
    /// A declaration.
    Type(TypeStruct),
    /// An opening brace.
    InScope,
    /// A closing brace.
    OutScope,
}

impl View for EventType {
    type V = EventView;

    open spec fn view(&self) -> EventView {
        match self {
            EventType::Comment(s) => EventView::Comment(s@),
            EventType::FileComment(s) => EventView::FileComment(s@),
            EventType::Type(t) => EventView::Type(t@),
            EventType::InScope => EventView::InScope,
            EventType::OutScope => EventView::OutScope,
        }
    }
}

impl EventType {
    pub fn duplicate(&self) -> (r: EventType)
        ensures
            r@ == self@,
    {
        match self {
            EventType::Comment(s) => EventType::Comment(s.clone()),
            EventType::FileComment(s) => EventType::FileComment(s.clone()),
            EventType::Type(t) => EventType::Type(t.duplicate()),
            EventType::InScope => EventType::InScope,
            EventType::OutScope => EventType::OutScope,
        }
    }
}

/// An event and the source line it was met on.
#[derive(Debug, Clone)]
pub struct EventInfo {
    pub line: usize,
    pub event: EventType,
}

impl View for EventInfo {
    type V = (nat, EventView);

    open spec fn view(&self) -> (nat, EventView) {
        (self.line as nat, self.event@)
    }
}

pub open spec fn events_view(v: Seq<EventInfo>) -> Seq<(nat, EventView)> {
    v.map_values(|e: EventInfo| e@)
}

impl EventInfo {
    pub fn new(line: usize, event: EventType) -> (r: EventInfo)
        ensures
            r.line == line,
            r.event == event,
    {
        EventInfo { line, event }
    }

    pub fn duplicate(&self) -> (r: EventInfo)
        ensures
            r@ == self@,
    {
        EventInfo { line: self.line, event: self.event.duplicate() }
    }
}

/// What scanning one file gives: its events, the indices of the lines that
/// hold doc comments, and its lines.
#[derive(Debug, Clone)]
pub struct ParseResult {
    pub event_list: Vec<EventInfo>,
    pub comment_lines: Vec<usize>,
    pub original_content: Vec<String>,
}


/// The characters of each string.
pub fn strings_chars(v: &Vec<String>) -> (r: Vec<Vec<char>>)
    ensures
        r@.map_values(|v: Vec<char>| v@) == strings_view(v@),
{
    let mut r: Vec<Vec<char>> = Vec::new();
    let mut i: usize = 0;
    while i < v.len()
        invariant
            i <= v@.len(),
            r@.len() == i,
            forall|j: int| 0 <= j < i ==> #[trigger] r@[j]@ == v@[j]@,
        decreases v@.len() - i,
    {
        r.push(chars_of(v[i].as_str()));
        i += 1;
    }
    assert(r@.map_values(|v: Vec<char>| v@) =~= strings_view(v@));
    r
}

impl TypeNode {
    /// How this node is written in the sidecar.
    pub fn text(&self) -> (r: Vec<char>)
        ensures
            r@ == node_text(self@),
    {
        let mut r = chars_of(self.ty.label());
        r.push(' ');
        push_all(&mut r, &chars_of(self.name.as_str()));
        let space = vec![' '];
        assert(space@ =~= seq![' ']);
        push_all(&mut r, &join_chars(&strings_chars(&self.args), &space));
        assert(r@ =~= node_text(self@));
        r
    }
}

impl TypeStruct {
    /// How this path is written in the sidecar, without its macro ancestors
    /// when `hide_macros`.
    pub fn path_text(&self, hide_macros: bool) -> (r: Vec<char>)
        ensures
            r@ == path_text_spec(self@, hide_macros),
    {
        let ghost pv = nodes_view(self.parents@);
        let mut parts: Vec<Vec<char>> = Vec::new();
        let mut i: usize = 0;
        while i < self.parents.len()
            invariant
                i <= self.parents@.len(),
                pv == nodes_view(self.parents@),
                parts@.map_values(|v: Vec<char>| v@) == kept_texts(pv.subrange(0, i as int), hide_macros),
            decreases self.parents@.len() - i,
        {
            let ghost old_parts = parts@;
            assert(pv.subrange(0, i + 1).drop_last() =~= pv.subrange(0, i as int));
            let n = &self.parents[i];
            if !(hide_macros && (n.ty == Type::Macro || n.ty == Type::MacroDefinition)) {
                parts.push(n.text());
                assert(parts@.map_values(|v: Vec<char>| v@) =~= old_parts.map_values(
                    |v: Vec<char>| v@,
                ).push(node_text(n@)));
            }
            i += 1;
        }
        let ghost old_parts = parts@;
        parts.push(self.node().text());
        assert(parts@.map_values(|v: Vec<char>| v@) =~= old_parts.map_values(|v: Vec<char>| v@).push(
            node_text(self@.last()),
        ));
        assert(pv.subrange(0, i as int) =~= self@.drop_last());
        let sep = vec![':', ':'];
        assert(sep@ =~= seq![':', ':']);
        join_chars(&parts, &sep)
    }
}

} // verus!
