//! Which tool definitions a node accepts, and the set of tools it holds.

use vstd::prelude::*;
use crate::template::occurs_in;
use crate::text::chars_of;
use crate::tool_def::NodeToolDef;

verus! {

/// Why a tool definition is refused.
#[derive(Debug, Clone, Copy, PartialEq, Eq, Structural)]
pub enum ToolDefError {
    /// The name is empty.
    EmptyName,
    /// The name holds `"__"`, which qualified names use as separator.
    ReservedSeparator,
    /// The description is empty.
    EmptyDescription,
}

/// The outcome of offering a definition to a catalog.
#[derive(Debug, Clone, Copy, PartialEq, Eq, Structural)]
pub enum Admission {
    /// The definition was added.
    Added,
    /// A tool of the same name is already held; the catalog is unchanged.
    Duplicate,
    /// The definition is invalid; the catalog is unchanged.
    Rejected(ToolDefError),
}

/// The checks on a definition, in the order they are made.
pub open spec fn spec_validate(name: Seq<char>, description: Seq<char>) -> Result<(), ToolDefError> {
    if name.len() == 0 {
        Err(ToolDefError::EmptyName)
    } else if occurs_in(name, seq!['_', '_']) {
        Err(ToolDefError::ReservedSeparator)
    } else if description.len() == 0 {
        Err(ToolDefError::EmptyDescription)
    } else {
        Ok(())
    }
}

/// A definition that passes every check.
pub open spec fn valid_def(def: NodeToolDef) -> bool {
    spec_validate(def.name@, def.description@) is Ok
}

/// Whether `s` holds two consecutive underscores.
fn has_double_underscore(s: &String) -> (b: bool)
    ensures
        b == occurs_in(s@, seq!['_', '_']),
{
    let cs = chars_of(s.as_str());
    let n = cs.len();
    let mut i: usize = 0;
    while i < n
        invariant
            i <= n,
            n == cs@.len(),
            cs@ == s@,
            forall|j: int| 0 <= j < i && j + 1 < n ==> !(#[trigger] cs@[j] == '_' && cs@[j + 1] == '_'),
        decreases n - i,
    {
        if i + 1 < n && cs[i] == '_' && cs[i + 1] == '_' {
            assert(cs@.subrange(i as int, i + 2) =~= seq!['_', '_']);
            assert(crate::template::occurs_at(s@, seq!['_', '_'], i as int));
            return true;
        }
        i = i + 1;
    }
    assert(!occurs_in(s@, seq!['_', '_'])) by {
        if occurs_in(s@, seq!['_', '_']) {
            let j = choose|j: int| crate::template::occurs_at(s@, seq!['_', '_'], j);
            assert(s@.subrange(j, j + 2)[0] == s@[j]);
            assert(s@.subrange(j, j + 2)[1] == s@[j + 1]);
        }
    }
    false
}

/// Basic validation of a loaded definition: a non-empty name without
/// `"__"` (reserved for namespacing) and a non-empty description.
pub fn validate_tool_def(def: &NodeToolDef) -> (r: Result<(), ToolDefError>)
    ensures
        r == spec_validate(def.name@, def.description@),
        def.name@.len() == 0 ==> r == Err::<(), ToolDefError>(ToolDefError::EmptyName),
        def.name@.len() > 0 && (exists|i: int| 0 <= i < def.name@.len() - 1 && #[trigger] def.name@[i] == '_' && def.name@[i + 1] == '_') ==> r == Err::<(), ToolDefError>(
            ToolDefError::ReservedSeparator,
        ),
        def.name@.len() > 0 && !(exists|i: int| 0 <= i < def.name@.len() - 1 && #[trigger] def.name@[i] == '_' && def.name@[i + 1] == '_') && def.description@.len() == 0 ==> r == Err::<
            (),
            ToolDefError,
        >(ToolDefError::EmptyDescription),
        def.name@.len() > 0 && !(exists|i: int| 0 <= i < def.name@.len() - 1 && #[trigger] def.name@[i] == '_' && def.name@[i + 1] == '_') && def.description@.len() > 0 ==> r == Ok::<
            (),
            ToolDefError,
        >(()),
{
    proof {
        lemma_validate_rule(def.name@, def.description@);
    }
    if def.name.as_str().is_empty() {
        return Err(ToolDefError::EmptyName);
    }
    if has_double_underscore(&def.name) {
        return Err(ToolDefError::ReservedSeparator);
    }
    if def.description.as_str().is_empty() {
        return Err(ToolDefError::EmptyDescription);
    }
    Ok(())
}

/// `"__"` occurs in `s` exactly when two consecutive characters of `s` are
/// underscores.
proof fn lemma_double_underscore(s: Seq<char>)
    ensures
        occurs_in(s, seq!['_', '_']) <==> (exists|i: int| 0 <= i < s.len() - 1 && #[trigger] s[i] == '_' && s[i + 1] == '_'),
{
    let pat = seq!['_', '_'];
    if occurs_in(s, pat) {
        let i = choose|i: int| crate::template::occurs_at(s, pat, i);
        assert(s.subrange(i, i + 2)[0] == s[i]);
        assert(s.subrange(i, i + 2)[1] == s[i + 1]);
        assert(s[i] == '_');
    }
    if (exists|i: int| 0 <= i < s.len() - 1 && #[trigger] s[i] == '_' && s[i + 1] == '_') {
        let i = choose|i: int| 0 <= i < s.len() - 1 && #[trigger] s[i] == '_' && s[i + 1] == '_';
        assert(s.subrange(i, i + 2) =~= pat);
        assert(crate::template::occurs_at(s, pat, i));
    }
}

/// The checks on a definition: an empty name is refused first, then a name
/// with two consecutive underscores, then an empty description; anything
/// else is accepted.
pub proof fn lemma_validate_rule(name: Seq<char>, description: Seq<char>)
    ensures
        name.len() == 0 ==> spec_validate(name, description) == Err::<(), ToolDefError>(
            ToolDefError::EmptyName,
        ),
        name.len() > 0 && (exists|i: int| 0 <= i < name.len() - 1 && #[trigger] name[i] == '_' && name[i + 1] == '_') ==> spec_validate(name, description) == Err::<(), ToolDefError>(
            ToolDefError::ReservedSeparator,
        ),
        name.len() > 0 && !(exists|i: int| 0 <= i < name.len() - 1 && #[trigger] name[i] == '_' && name[i + 1] == '_') && description.len() == 0 ==> spec_validate(name, description)
            == Err::<(), ToolDefError>(ToolDefError::EmptyDescription),
        name.len() > 0 && !(exists|i: int| 0 <= i < name.len() - 1 && #[trigger] name[i] == '_' && name[i + 1] == '_') && description.len() > 0 ==> spec_validate(name, description)
            == Ok::<(), ToolDefError>(()),
{
    lemma_double_underscore(name);
}

impl ToolDefError {
    /// The message reported for this error.
    pub open spec fn spec_message(self) -> Seq<char> {
        match self {
            ToolDefError::EmptyName => "tool name must not be empty"@,
            ToolDefError::ReservedSeparator =>
                "tool name must not contain '__' (reserved for namespacing)"@,
            ToolDefError::EmptyDescription => "tool description must not be empty"@,
        }
    }

    /// The message reported for this error.
    pub fn message(&self) -> (r: String)
        ensures
            r@ == self.spec_message(),
    {
        match self {
            ToolDefError::EmptyName => String::from_str("tool name must not be empty"),
            ToolDefError::ReservedSeparator => String::from_str(
                "tool name must not contain '__' (reserved for namespacing)",
            ),
            ToolDefError::EmptyDescription => String::from_str("tool description must not be empty"),
        }
    }
}

/// The names of the given definitions, in order.
pub open spec fn def_names(defs: Seq<NodeToolDef>) -> Seq<Seq<char>> {
    defs.map_values(|d: NodeToolDef| d.name@)
}

/// The tools a node holds: valid definitions, no two of one name, in the
/// order they were added.
pub struct ToolCatalog {
    tools: Vec<NodeToolDef>,
}

impl View for ToolCatalog {
    type V = Seq<NodeToolDef>;

    closed spec fn view(&self) -> Seq<NodeToolDef> {
        self.tools@
    }
}

/// No two definitions share a name and each passes validation.
pub open spec fn catalog_wf(defs: Seq<NodeToolDef>) -> bool {
    &&& def_names(defs).no_duplicates()
    &&& forall|i: int| 0 <= i < defs.len() ==> valid_def(#[trigger] defs[i])
}

impl ToolCatalog {
    #[verifier::type_invariant]
    closed spec fn inv(self) -> bool {
        catalog_wf(self.tools@)
    }

    /// An empty catalog.
    pub fn new() -> (r: Self)
        ensures
            r@ == Seq::<NodeToolDef>::empty(),
            catalog_wf(r@),
    {
        let r = ToolCatalog { tools: Vec::new() };
        assert(def_names(r.tools@) =~= Seq::<Seq<char>>::empty());
        r
    }

    /// The number of tools held.
    pub fn len(&self) -> (r: usize)
        ensures
            r == self@.len(),
            catalog_wf(self@),
    {
        proof {
            use_type_invariant(self);
        }
        self.tools.len()
    }

    /// Whether no tool is held.
    pub fn is_empty(&self) -> (r: bool)
        ensures
            r == (self@.len() == 0),
            catalog_wf(self@),
    {
        proof {
            use_type_invariant(self);
        }
        self.tools.len() == 0
    }

    /// The position of the tool named `name`, if one is held.
    fn position(&self, name: &String) -> (r: Option<usize>)
        ensures
            match r {
                Some(i) => i < self@.len() && self@[i as int].name@ == name@,
                None => !def_names(self@).contains(name@),
            },
    {
        let mut i: usize = 0;
        while i < self.tools.len()
            invariant
                i <= self.tools@.len(),
                forall|j: int| 0 <= j < i ==> self.tools@[j].name@ != name@,
            decreases self.tools@.len() - i,
        {
            if self.tools[i].name == *name {
                return Some(i);
            }
            i = i + 1;
        }
        assert(!def_names(self@).contains(name@)) by {
            if def_names(self@).contains(name@) {
                let j = choose|j: int| 0 <= j < def_names(self@).len() && def_names(self@)[j] == name@;
                assert(def_names(self@)[j] == self.tools@[j].name@);
            }
        }
        None
    }

    /// Whether a tool named `name` is held.
    pub fn contains_name(&self, name: &String) -> (r: bool)
        ensures
            r == def_names(self@).contains(name@),
            catalog_wf(self@),
    {
        proof {
            use_type_invariant(self);
        }
        match self.position(name) {
            Some(i) => {
                assert(def_names(self@)[i as int] == name@);
                true
            },
            None => false,
        }
    }

    /// The tool named `name`, if one is held.
    pub fn get(&self, name: &String) -> (r: Option<&NodeToolDef>)
        ensures
            match r {
                Some(d) => exists|i: int| 0 <= i < self@.len() && self@[i] == *d && d.name@ == name@,
                None => !def_names(self@).contains(name@),
            },
            catalog_wf(self@),
    {
        proof {
            use_type_invariant(self);
        }
        match self.position(name) {
            Some(i) => Some(&self.tools[i]),
            None => None,
        }
    }

    /// Offer a loaded definition: an invalid one is rejected, one whose name
    /// is already held is skipped (the first of a name wins), any other is
    /// added at the end.
    pub fn offer(&mut self, def: NodeToolDef) -> (r: Admission)
        ensures
            match spec_validate(def.name@, def.description@) {
                Err(e) => r == Admission::Rejected(e) && final(self)@ == old(self)@,
                Ok(()) => if def_names(old(self)@).contains(def.name@) {
                    r == Admission::Duplicate && final(self)@ == old(self)@
                } else {
                    r == Admission::Added && final(self)@ == old(self)@.push(def)
                },
            },
            final(self)@ == spec_offer(old(self)@, def),
            catalog_wf(final(self)@),
    {
        proof {
            use_type_invariant(&*self);
        }
        match validate_tool_def(&def) {
            Err(e) => Admission::Rejected(e),
            Ok(()) => {
                if self.contains_name(&def.name) {
                    Admission::Duplicate
                } else {
                    let ghost old_defs = self.tools@;
                    proof {
                        assert(def_names(old_defs.push(def)) =~= def_names(old_defs).push(def.name@));
                        assert forall|i: int| 0 <= i < old_defs.len() + 1 implies valid_def(
                            #[trigger] old_defs.push(def)[i],
                        ) by {
                            if i < old_defs.len() {
                                assert(old_defs.push(def)[i] == old_defs[i]);
                            }
                        }
                    }
                    let mut tools: Vec<NodeToolDef> = Vec::new();
                    std::mem::swap(&mut tools, &mut self.tools);
                    tools.push(def);
                    self.tools = tools;
                    Admission::Added
                }
            },
        }
    }

    /// The held definitions, in the order they were added.
    pub fn into_defs(self) -> (r: Vec<NodeToolDef>)
        ensures
            r@ == self@,
            catalog_wf(r@),
    {
        proof {
            use_type_invariant(&self);
        }
        self.tools
    }
}

/// The catalog after offering `def`: it is added when valid and of a new
/// name, and the catalog is unchanged otherwise.
pub open spec fn spec_offer(defs: Seq<NodeToolDef>, def: NodeToolDef) -> Seq<NodeToolDef> {
    if valid_def(def) && !def_names(defs).contains(def.name@) {
        defs.push(def)
    } else {
        defs
    }
}

/// The catalog after offering each of `defs` in turn to an empty one.
pub open spec fn spec_offer_all(defs: Seq<NodeToolDef>) -> Seq<NodeToolDef>
    decreases defs.len(),
{
    if defs.len() == 0 {
        Seq::empty()
    } else {
        spec_offer(spec_offer_all(defs.drop_last()), defs.last())
    }
}

/// The valid definitions among `defs`, in order.
pub open spec fn valid_defs(defs: Seq<NodeToolDef>) -> Seq<NodeToolDef>
    decreases defs.len(),
{
    if defs.len() == 0 {
        Seq::empty()
    } else if valid_def(defs.last()) {
        valid_defs(defs.drop_last()).push(defs.last())
    } else {
        valid_defs(defs.drop_last())
    }
}

/// No two valid definitions among `defs` share a name.
pub open spec fn valid_names_distinct(defs: Seq<NodeToolDef>) -> bool {
    forall|i: int, j: int|
        0 <= i < j < defs.len() && valid_def(#[trigger] defs[i]) && valid_def(#[trigger] defs[j])
            ==> defs[i].name@ != defs[j].name@
}

proof fn lemma_push_contains(s: Seq<NodeToolDef>, x: NodeToolDef, d: NodeToolDef)
    ensures
        s.push(x).contains(d) <==> (s.contains(d) || d == x),
{
    let t = s.push(x);
    if t.contains(d) {
        let i = choose|i: int| 0 <= i < t.len() && t[i] == d;
        if i < s.len() {
            assert(s[i] == d);
        }
    }
    if s.contains(d) {
        let i = choose|i: int| 0 <= i < s.len() && s[i] == d;
        assert(t[i] == d);
    }
    assert(t[s.len() as int] == x);
}

proof fn lemma_valid_defs_members(defs: Seq<NodeToolDef>)
    ensures
        forall|d: NodeToolDef| #[trigger] valid_defs(defs).contains(d) <==> (defs.contains(d) && valid_def(d)),
    decreases defs.len(),
{
    if defs.len() > 0 {
        let init = defs.drop_last();
        let last = defs.last();
        lemma_valid_defs_members(init);
        assert(defs =~= init.push(last));
        assert forall|d: NodeToolDef| #[trigger] valid_defs(defs).contains(d) <==> (defs.contains(d)
            && valid_def(d)) by {
            lemma_push_contains(init, last, d);
            assert(defs.contains(d) <==> (init.contains(d) || d == last));
            assert(valid_defs(init).contains(d) <==> (init.contains(d) && valid_def(d)));
            if valid_def(last) {
                assert(valid_defs(defs) == valid_defs(init).push(last));
                lemma_push_contains(valid_defs(init), last, d);
            } else {
                assert(valid_defs(defs) == valid_defs(init));
            }
        }
    }
}

/// Loading a directory keeps exactly the valid definitions: when no two
/// valid ones share a name, offering `defs` in turn to an empty catalog
/// yields the valid definitions in order, and so the same catalog (up to
/// order) whatever invalid definitions are offered besides and in whatever
/// order the valid ones come.
pub proof fn lemma_offer_all_keeps_valid(defs: Seq<NodeToolDef>)
    requires
        valid_names_distinct(defs),
    ensures
        spec_offer_all(defs) == valid_defs(defs),
        forall|d: NodeToolDef| #[trigger] spec_offer_all(defs).contains(d) <==> (defs.contains(d)
            && valid_def(d)),
    decreases defs.len(),
{
    if defs.len() > 0 {
        let init = defs.drop_last();
        assert forall|i: int, j: int|
            0 <= i < j < init.len() && valid_def(#[trigger] init[i]) && valid_def(#[trigger] init[j])
                implies init[i].name@ != init[j].name@ by {
            assert(init[i] == defs[i]);
            assert(init[j] == defs[j]);
        }
        lemma_offer_all_keeps_valid(init);
        let last = defs.last();
        if valid_def(last) {
            let v = valid_defs(init);
            lemma_valid_defs_members(init);
            assert(!def_names(v).contains(last.name@)) by {
                if def_names(v).contains(last.name@) {
                    let k = choose|k: int| 0 <= k < def_names(v).len() && def_names(v)[k] == last.name@;
                    assert(v.contains(v[k]));
                    let d = v[k];
                    assert(init.contains(d) && valid_def(d));
                    let i = choose|i: int| 0 <= i < init.len() && init[i] == d;
                    assert(defs[i] == d);
                    assert(defs[defs.len() - 1] == last);
                    assert(d.name@ == last.name@);
                }
            }
        }
    }
    lemma_valid_defs_members(defs);
}

/// The file-name suffix of tool definition files.
pub open spec fn json_suffix() -> Seq<char> {
    seq!['.', 'j', 's', 'o', 'n']
}

/// Whether a directory entry named `file_name` holds a tool definition: its
/// extension, as `Path::extension` finds it (the part after the last `.`,
/// when that `.` is not the first character), is `json`.
pub open spec fn spec_is_tool_file_name(file_name: Seq<char>) -> bool {
    file_name.len() > 5 && file_name.skip(file_name.len() - 5) == json_suffix()
}

/// A name is a tool file name exactly when it has more than five characters
/// and its last five are `.json`.
pub proof fn lemma_tool_file_name_rule(file_name: Seq<char>)
    ensures
        spec_is_tool_file_name(file_name) <==> (file_name.len() > 5 && file_name[file_name.len() - 5] == '.' && file_name[file_name.len() - 4] == 'j' && file_name[file_name.len() - 3] == 's'
            && file_name[file_name.len() - 2] == 'o' && file_name[file_name.len() - 1] == 'n'),
{
    let n = file_name.len();
    if n > 5 {
        let t = file_name.skip(n - 5);
        assert(t[0] == file_name[n - 5]);
        assert(t[1] == file_name[n - 4]);
        assert(t[2] == file_name[n - 3]);
        assert(t[3] == file_name[n - 2]);
        assert(t[4] == file_name[n - 1]);
        if file_name[n - 5] == '.' && file_name[n - 4] == 'j' && file_name[n - 3] == 's' && file_name[n
            - 2] == 'o' && file_name[n - 1] == 'n' {
            assert(t =~= json_suffix());
        }
    }
}

/// A `<stem>.json` file with a non-empty stem always names a tool file.
pub proof fn lemma_json_stem_is_tool_file(stem: Seq<char>)
    requires
        stem.len() > 0,
    ensures
        spec_is_tool_file_name(stem + seq!['.', 'j', 's', 'o', 'n']),
{
    let json = seq!['.', 'j', 's', 'o', 'n'];
    let name = stem + json;
    lemma_tool_file_name_rule(name);
    assert(name[name.len() - 5] == json[0]);
    assert(name[name.len() - 4] == json[1]);
    assert(name[name.len() - 3] == json[2]);
    assert(name[name.len() - 2] == json[3]);
    assert(name[name.len() - 1] == json[4]);
}

/// Whether a directory entry named `file_name` holds a tool definition.
pub fn is_tool_file_name(file_name: &str) -> (r: bool)
    ensures
        r == spec_is_tool_file_name(file_name@),
        r <==> (file_name@.len() > 5 && file_name@[file_name@.len() - 5] == '.' && file_name@[file_name@.len() - 4] == 'j' && file_name@[file_name@.len() - 3] == 's'
            && file_name@[file_name@.len() - 2] == 'o' && file_name@[file_name@.len() - 1] == 'n'),
{
    proof {
        lemma_tool_file_name_rule(file_name@);
    }
    let cs = chars_of(file_name);
    let n = cs.len();
    if n <= 5 {
        return false;
    }
    let r = cs[n - 5] == '.' && cs[n - 4] == 'j' && cs[n - 3] == 's' && cs[n - 2] == 'o' && cs[n - 1]
        == 'n';
    proof {
        let tail = cs@.skip(n - 5);
        if r {
            assert(tail =~= json_suffix());
        } else {
            assert(tail != json_suffix()) by {
                if tail == json_suffix() {
                    assert(tail[0] == cs@[n - 5]);
                    assert(tail[1] == cs@[n - 4]);
                    assert(tail[2] == cs@[n - 3]);
                    assert(tail[3] == cs@[n - 2]);
                    assert(tail[4] == cs@[n - 1]);
                }
            }
        }
    }
    r
}

} // verus!
