//! What the project tree and the alias reports show: the rows of the tree in
//! order with their connectors, the labels of a node, and the aliases sorted by
//! name with the projects they lead to. Printing and colours are the caller's.

use vstd::prelude::*;
use crate::context::{children_of, insert_by_name, insert_kid, kids_view, sort_by_name, sorted_children};
use crate::handlers::{join_strings, joined};
use crate::index_manager::{build_qualified_name, opt_string_view, qualified_name};
use crate::models::{
    CachedProjectConfigView, CachedVarView, GlobalIndex, GlobalIndexView, IndexEntryView, TaskView,
};
use crate::parameters::strs_view;
use crate::paths::{uuid_text, uuid_to_string};
use crate::resolved::{
    find_task, find_var, first_value, merged_env, merged_scripts, merged_vars, missing_layer_message, pairs_view,
    position_of, root_failure, ResolvedConfig, ResolvedOpenWithConfig,
};
use crate::text::{owned, push_str, str_eq, trim, trim_str};

verus! {

/// Options that control what the tree shows.
#[derive(Debug, Clone, Copy, Default)]
pub struct DisplayOptions {
    /// Show each project's path.
    pub show_paths: bool,
    /// Show each project's UUID.
    pub show_uuids: bool,
    /// Show no rows deeper than this.
    pub max_depth: Option<usize>,
    /// Mark the projects whose path does not exist.
    pub show_health: bool,
}

/// One row of the tree: the project, its name, and the lines drawn before it.
#[derive(Debug, Clone)]
pub struct TreeRow {
    pub uuid: u128,
    pub name: String,
    pub lead: String,
}

pub ghost struct TreeRowView {
    pub uuid: u128,
    pub name: Seq<char>,
    pub lead: Seq<char>,
}

impl View for TreeRow {
    type V = TreeRowView;

    open spec fn view(&self) -> TreeRowView {
        TreeRowView { uuid: self.uuid, name: self.name@, lead: self.lead@ }
    }
}

/// The views of a list of rows.
pub open spec fn rows_view(s: Seq<TreeRow>) -> Seq<TreeRowView> {
    s.map_values(|r: TreeRow| r@)
}

/// The connector drawn before a child: the last child closes the branch.
pub open spec fn connector(last: bool) -> Seq<char> {
    if last {
        "└─"@
    } else {
        "├─"@
    }
}

/// What a child adds to the prefix of its own children.
pub open spec fn indent(last: bool) -> Seq<char> {
    if last {
        "   "@
    } else {
        "│  "@
    }
}

/// Whether `depth` lies beyond the depth limit.
pub open spec fn beyond(max_depth: Option<usize>, depth: nat) -> bool {
    match max_depth {
        Some(m) => depth > m,
        None => false,
    }
}

/// The rows under `parent`: its children sorted by name, each followed by the
/// rows under it, down to `fuel` levels.
pub open spec fn rows_under(
    v: GlobalIndexView,
    parent: u128,
    prefix: Seq<char>,
    depth: nat,
    max_depth: Option<usize>,
    fuel: nat,
) -> Seq<TreeRowView>
    decreases fuel, 1nat, 0nat,
{
    if fuel == 0 || beyond(max_depth, depth) {
        Seq::empty()
    } else {
        rows_from(
            v,
            sort_by_name(children_of(v.projects, parent)),
            0,
            prefix,
            depth,
            max_depth,
            fuel,
        )
    }
}

/// The rows of the children `kids[i..]` and of what lies under each.
pub open spec fn rows_from(
    v: GlobalIndexView,
    kids: Seq<(u128, Seq<char>)>,
    i: int,
    prefix: Seq<char>,
    depth: nat,
    max_depth: Option<usize>,
    fuel: nat,
) -> Seq<TreeRowView>
    decreases fuel, 0nat, (kids.len() - i) as nat,
{
    if i < 0 || i >= kids.len() || fuel == 0 {
        Seq::empty()
    } else {
        let last = i == kids.len() - 1;
        seq![TreeRowView { uuid: kids[i].0, name: kids[i].1, lead: prefix + connector(last) }]
            + rows_under(
            v,
            kids[i].0,
            prefix + indent(last),
            depth + 1,
            max_depth,
            (fuel - 1) as nat,
        ) + rows_from(v, kids, i + 1, prefix, depth, max_depth, fuel)
    }
}

proof fn lemma_rows_from_step(
    v: GlobalIndexView,
    kids: Seq<(u128, Seq<char>)>,
    i: int,
    prefix: Seq<char>,
    depth: nat,
    max_depth: Option<usize>,
    fuel: nat,
)
    requires
        0 <= i < kids.len(),
        fuel > 0,
    ensures
        rows_from(v, kids, i, prefix, depth, max_depth, fuel) == seq![
            TreeRowView {
                uuid: kids[i].0,
                name: kids[i].1,
                lead: prefix + connector(i == kids.len() - 1),
            },
        ] + rows_under(
            v,
            kids[i].0,
            prefix + indent(i == kids.len() - 1),
            depth + 1,
            max_depth,
            (fuel - 1) as nat,
        ) + rows_from(v, kids, i + 1, prefix, depth, max_depth, fuel),
{
}

/// Appends the rows under `parent` to `out`.
fn push_rows_under(
    index: &GlobalIndex,
    parent: u128,
    prefix: &str,
    depth: usize,
    max_depth: Option<usize>,
    fuel: usize,
    out: &mut Vec<TreeRow>,
)
    requires
        depth + fuel <= usize::MAX,
    ensures
        rows_view(final(out)@) == rows_view(old(out)@) + rows_under(
            index@,
            parent,
            prefix@,
            depth as nat,
            max_depth,
            fuel as nat,
        ),
    decreases fuel,
{
    let ghost v = index@;
    if fuel == 0 {
        assert(rows_view(out@) =~= rows_view(out@) + Seq::<TreeRowView>::empty());
        return ;
    }
    let too_deep = match max_depth {
        Some(m) => depth > m,
        None => false,
    };
    if too_deep {
        assert(rows_view(out@) =~= rows_view(out@) + Seq::<TreeRowView>::empty());
        return ;
    }
    let kids = sorted_children(index, parent);
    let ghost ks = kids_view(kids@);
    let ghost start = rows_view(out@);
    let n = kids.len();
    let mut i: usize = 0;
    assert(start + rows_from(v, ks, 0, prefix@, depth as nat, max_depth, fuel as nat) =~= rows_view(
        out@,
    ) + rows_from(v, ks, 0, prefix@, depth as nat, max_depth, fuel as nat));
    while i < n
        invariant
            i <= n,
            n == kids@.len(),
            ks == kids_view(kids@),
            index@ == v,
            depth + fuel <= usize::MAX,
            fuel > 0,
            rows_view(out@) + rows_from(v, ks, i as int, prefix@, depth as nat, max_depth, fuel as nat)
                == start + rows_from(v, ks, 0, prefix@, depth as nat, max_depth, fuel as nat),
        decreases n - i,
    {
        let last = i + 1 == n;
        let mut lead = owned(prefix);
        let mut child_prefix = owned(prefix);
        if last {
            push_str(&mut lead, "└─");
            push_str(&mut child_prefix, "   ");
        } else {
            push_str(&mut lead, "├─");
            push_str(&mut child_prefix, "│  ");
        }
        let child = kids[i].0;
        let row = TreeRow { uuid: child, name: kids[i].1.clone(), lead };
        proof {
            lemma_rows_from_step(v, ks, i as int, prefix@, depth as nat, max_depth, fuel as nat);
            assert(ks[i as int] == (kids@[i as int].0, kids@[i as int].1@));
        }
        let ghost before = rows_view(out@);
        out.push(row);
        assert(rows_view(out@) =~= before.push(row@));
        let ghost mid = rows_view(out@);
        push_rows_under(index, child, child_prefix.as_str(), depth + 1, max_depth, fuel - 1, out);
        let ghost sub = rows_under(
            v,
            child,
            child_prefix@,
            (depth + 1) as nat,
            max_depth,
            (fuel - 1) as nat,
        );
        let ghost next = rows_from(v, ks, i + 1, prefix@, depth as nat, max_depth, fuel as nat);
        assert(rows_view(out@) + next =~= before + (seq![row@] + sub + next));
        i = i + 1;
    }
    assert(rows_from(v, ks, i as int, prefix@, depth as nat, max_depth, fuel as nat)
        =~= Seq::<TreeRowView>::empty());
    assert(rows_view(out@) =~= rows_view(out@) + Seq::<TreeRowView>::empty());
}

/// What the tree command shows.
#[derive(Debug)]
pub enum TreeLayout {
    /// No project is registered.
    NoProjects,
    /// The starting project is not registered (`subtree`: one was asked for).
    StartMissing { subtree: bool },
    /// The rows to show; `header` is the root drawn above them for the whole tree.
    Tree { header: Option<(u128, String)>, rows: Vec<TreeRow> },
}

/// The name of the first project `u` in a list of projects.
pub open spec fn name_in(ps: Seq<(u128, IndexEntryView)>, u: u128) -> Option<Seq<char>>
    decreases ps.len(),
{
    if ps.len() == 0 {
        None
    } else if ps[0].0 == u {
        Some(ps[0].1.name)
    } else {
        name_in(ps.drop_first(), u)
    }
}

/// The name of project `u`.
pub open spec fn name_of(v: GlobalIndexView, u: u128) -> Option<Seq<char>> {
    name_in(v.projects, u)
}

fn find_name(index: &GlobalIndex, u: u128) -> (r: Option<String>)
    ensures
        opt_string_view(r) == name_of(index@, u),
{
    let ghost v = index@;
    let mut i: usize = 0;
    assert(v.projects.subrange(0, v.projects.len() as int) =~= v.projects);
    while i < index.projects.len()
        invariant
            i <= index.projects@.len(),
            v == index@,
            name_of(v, u) == name_in(v.projects.subrange(i as int, v.projects.len() as int), u),
        decreases index.projects@.len() - i,
    {
        let ghost rest = v.projects.subrange(i as int, v.projects.len() as int);
        assert(rest[0] == (index.projects@[i as int].0, index.projects@[i as int].1@));
        if index.projects[i].0 == u {
            return Some(index.projects[i].1.name.clone());
        }
        assert(rest.drop_first() =~= v.projects.subrange(i + 1, v.projects.len() as int));
        i = i + 1;
    }
    None
}

/// How deep a walk of the tree may go: no tree of registered projects is
/// deeper than their number.
pub open spec fn tree_fuel(v: GlobalIndexView) -> nat {
    v.projects.len() + 1
}

/// The rows of the tree below `start` (the global root when `None`) for the
/// given options, or why there is no tree to show.
pub fn tree_layout(index: &GlobalIndex, start: Option<u128>, options: &DisplayOptions) -> (r:
    TreeLayout)
    requires
        index@.projects.len() + 2 <= usize::MAX,
    ensures
        ({
            let v = index@;
            let s = match start {
                Some(u) => u,
                None => crate::models::global_uuid(),
            };
            if v.projects.len() == 0 {
                r is NoProjects
            } else if name_of(v, s) is None {
                r == (TreeLayout::StartMissing { subtree: start is Some })
            } else {
                &&& r is Tree
                &&& match r {
                    TreeLayout::Tree { header, rows } => {
                        &&& (start is None <==> header is Some)
                        &&& (header matches Some(h) ==> h.0 == s && Some(h.1@) == name_of(v, s))
                        &&& rows_view(rows@) == rows_under(
                            v,
                            s,
                            Seq::empty(),
                            1,
                            options.max_depth,
                            tree_fuel(v),
                        )
                    },
                    _ => true,
                }
            }
        }),
{
    if index.projects.len() == 0 {
        return TreeLayout::NoProjects;
    }
    let s = match start {
        Some(u) => u,
        None => crate::index_manager::GLOBAL_PROJECT_UUID,
    };
    let name = find_name(index, s);
    match name {
        None => TreeLayout::StartMissing { subtree: start.is_some() },
        Some(nm) => {
            let header = if start.is_none() {
                Some((s, nm))
            } else {
                None
            };
            let mut rows: Vec<TreeRow> = Vec::new();
            let empty = String::new();
            assert(rows_view(rows@) =~= Seq::<TreeRowView>::empty());
            push_rows_under(
                index,
                s,
                empty.as_str(),
                1,
                options.max_depth,
                index.projects.len() + 1,
                &mut rows,
            );
            assert(rows_view(rows@) =~= rows_under(
                index@,
                s,
                Seq::empty(),
                1,
                options.max_depth,
                tree_fuel(index@),
            ));
            TreeLayout::Tree { header, rows }
        },
    }
}

/// The aliases as (target, name) pairs, in index order.
pub open spec fn alias_pairs(aliases: Seq<(Seq<char>, u128)>) -> Seq<(u128, Seq<char>)> {
    aliases.map_values(|a: (Seq<char>, u128)| (a.1, a.0))
}

/// The aliases sorted by name, as (target, name) pairs.
pub fn sorted_alias_pairs(index: &GlobalIndex) -> (r: Vec<(u128, String)>)
    ensures
        kids_view(r@) == sort_by_name(alias_pairs(index@.aliases)),
{
    let ghost all = alias_pairs(index@.aliases);
    let mut out: Vec<(u128, String)> = Vec::new();
    let mut k: usize = 0;
    assert(all.subrange(0, 0) =~= Seq::<(u128, Seq<char>)>::empty());
    assert(kids_view(out@) =~= Seq::<(u128, Seq<char>)>::empty());
    while k < index.aliases.len()
        invariant
            k <= index.aliases@.len(),
            all == alias_pairs(index@.aliases),
            kids_view(out@) == sort_by_name(all.subrange(0, k as int)),
        decreases index.aliases@.len() - k,
    {
        assert(all.subrange(0, k + 1).drop_last() =~= all.subrange(0, k as int));
        assert(all[k as int] == (index.aliases@[k as int].1, index.aliases@[k as int].0@));
        let x = (index.aliases[k].1, index.aliases[k].0.clone());
        insert_kid(&mut out, x);
        k = k + 1;
    }
    assert(all.subrange(0, k as int) =~= all);
    out
}

/// One line of the alias reports: the alias and the qualified name of its
/// target, `None` where the target is gone.
#[derive(Debug, Clone)]
pub struct AliasLine {
    pub name: String,
    pub target: Option<String>,
}

/// The alias report: every alias, sorted by name, with its target.
pub fn alias_lines(index: &GlobalIndex) -> (r: Vec<AliasLine>)
    requires
        index@.wf(),
    ensures
        ({
            let s = sort_by_name(alias_pairs(index@.aliases));
            &&& r@.len() == s.len()
            &&& forall|i: int|
                0 <= i < s.len() ==> (#[trigger] r@[i]).name@ == s[i].1 && opt_string_view(
                    r@[i].target,
                ) == qualified_name(index@, s[i].0)
        }),
{
    let pairs = sorted_alias_pairs(index);
    let ghost s = kids_view(pairs@);
    let mut out: Vec<AliasLine> = Vec::new();
    let mut i: usize = 0;
    while i < pairs.len()
        invariant
            i <= pairs@.len(),
            s == kids_view(pairs@),
            index@.wf(),
            out@.len() == i,
            forall|j: int|
                0 <= j < i ==> (#[trigger] out@[j]).name@ == s[j].1 && opt_string_view(
                    out@[j].target,
                ) == qualified_name(index@, s[j].0),
        decreases pairs@.len() - i,
    {
        let target = build_qualified_name(pairs[i].0, index);
        out.push(AliasLine { name: pairs[i].1.clone(), target });
        i = i + 1;
    }
    out
}

/// The number of lines whose target is gone.
pub open spec fn broken_in(s: Seq<AliasLine>) -> nat
    decreases s.len(),
{
    if s.len() == 0 {
        0
    } else {
        broken_in(s.drop_last()) + if s.last().target is None {
            1nat
        } else {
            0nat
        }
    }
}

/// How many aliases of a report lead nowhere.
pub fn count_broken(lines: &Vec<AliasLine>) -> (r: usize)
    ensures
        r == broken_in(lines@),
{
    let mut n: usize = 0;
    let mut i: usize = 0;
    while i < lines.len()
        invariant
            i <= lines@.len(),
            n == broken_in(lines@.subrange(0, i as int)),
            n <= i,
        decreases lines@.len() - i,
    {
        assert(lines@.subrange(0, i + 1).drop_last() =~= lines@.subrange(0, i as int));
        if lines[i].target.is_none() {
            n = n + 1;
        }
        i = i + 1;
    }
    assert(lines@.subrange(0, i as int) =~= lines@);
    n
}

/// The marks (`name!`) of the aliases of `u`, in the order of `s`.
pub open spec fn alias_marks(s: Seq<(u128, Seq<char>)>, u: u128) -> Seq<Seq<char>>
    decreases s.len(),
{
    if s.len() == 0 {
        Seq::empty()
    } else if s.last().0 == u {
        alias_marks(s.drop_last(), u).push(s.last().1 + "!"@)
    } else {
        alias_marks(s.drop_last(), u)
    }
}

/// A label shown after a project's name in the tree.
#[derive(Debug, Clone)]
pub enum NodeLabel {
    /// The project's path does not exist.
    BrokenPath,
    /// The project was used last.
    LastUsed,
    /// The project's aliases.
    Aliases(String),
    /// The project's path, in brackets.
    Path(String),
    /// The project's UUID, in parentheses.
    Uuid(String),
}

pub ghost enum NodeLabelView {
    BrokenPath,
    LastUsed,
    Aliases(Seq<char>),
    Path(Seq<char>),
    Uuid(Seq<char>),
}

impl View for NodeLabel {
    type V = NodeLabelView;

    open spec fn view(&self) -> NodeLabelView {
        match self {
            NodeLabel::BrokenPath => NodeLabelView::BrokenPath,
            NodeLabel::LastUsed => NodeLabelView::LastUsed,
            NodeLabel::Aliases(s) => NodeLabelView::Aliases(s@),
            NodeLabel::Path(s) => NodeLabelView::Path(s@),
            NodeLabel::Uuid(s) => NodeLabelView::Uuid(s@),
        }
    }
}

/// The views of a list of labels.
pub open spec fn labels_view(s: Seq<NodeLabel>) -> Seq<NodeLabelView> {
    s.map_values(|l: NodeLabel| l@)
}

/// The labels of project `u` at `path`, in the order they are shown.
pub open spec fn labels_of(
    v: GlobalIndexView,
    sorted: Seq<(u128, Seq<char>)>,
    u: u128,
    path: Seq<char>,
    options: DisplayOptions,
    path_exists: bool,
) -> Seq<NodeLabelView> {
    let marks = alias_marks(sorted, u);
    (if options.show_health && !path_exists {
        seq![NodeLabelView::BrokenPath]
    } else {
        Seq::empty()
    }) + (if v.last_used == Some(u) {
        seq![NodeLabelView::LastUsed]
    } else {
        Seq::empty()
    }) + (if marks.len() > 0 {
        seq![NodeLabelView::Aliases(joined(marks, ", "@))]
    } else {
        Seq::empty()
    }) + (if options.show_paths {
        seq![NodeLabelView::Path("["@ + path + "]"@)]
    } else {
        Seq::empty()
    }) + (if options.show_uuids {
        seq![NodeLabelView::Uuid("("@ + uuid_text(u) + ")"@)]
    } else {
        Seq::empty()
    })
}

fn marks_of(sorted: &Vec<(u128, String)>, u: u128) -> (r: Vec<String>)
    ensures
        strs_view(r@) == alias_marks(kids_view(sorted@), u),
{
    let ghost s = kids_view(sorted@);
    let mut out: Vec<String> = Vec::new();
    let mut i: usize = 0;
    assert(strs_view(out@) =~= alias_marks(s.subrange(0, 0), u));
    while i < sorted.len()
        invariant
            i <= sorted@.len(),
            s == kids_view(sorted@),
            strs_view(out@) == alias_marks(s.subrange(0, i as int), u),
        decreases sorted@.len() - i,
    {
        assert(s.subrange(0, i + 1).drop_last() =~= s.subrange(0, i as int));
        assert(s[i as int] == (sorted@[i as int].0, sorted@[i as int].1@));
        if sorted[i].0 == u {
            let mut m = sorted[i].1.clone();
            push_str(&mut m, "!");
            let ghost before = strs_view(out@);
            out.push(m);
            assert(strs_view(out@) =~= before.push(m@));
        }
        i = i + 1;
    }
    assert(s.subrange(0, i as int) =~= s);
    out
}

/// The labels shown after project `u` at `path`; `sorted` is what
/// [`sorted_alias_pairs`] gave, `path_exists` whether the path exists.
pub fn node_labels(
    index: &GlobalIndex,
    sorted: &Vec<(u128, String)>,
    u: u128,
    path: &str,
    options: &DisplayOptions,
    path_exists: bool,
) -> (r: Vec<NodeLabel>)
    ensures
        labels_view(r@) == labels_of(index@, kids_view(sorted@), u, path@, *options, path_exists),
{
    let mut out: Vec<NodeLabel> = Vec::new();
    if options.show_health && !path_exists {
        out.push(NodeLabel::BrokenPath);
    }
    if index.last_used == Some(u) {
        out.push(NodeLabel::LastUsed);
    }
    let marks = marks_of(sorted, u);
    if marks.len() > 0 {
        let text = join_strings(&marks, ", ");
        out.push(NodeLabel::Aliases(text));
    }
    if options.show_paths {
        let mut p = owned("[");
        push_str(&mut p, path);
        push_str(&mut p, "]");
        out.push(NodeLabel::Path(p));
    }
    if options.show_uuids {
        let mut t = owned("(");
        let id = uuid_to_string(u);
        push_str(&mut t, id.as_str());
        push_str(&mut t, ")");
        out.push(NodeLabel::Uuid(t));
    }
    assert(labels_view(out@) =~= labels_of(
        index@,
        kids_view(sorted@),
        u,
        path@,
        *options,
        path_exists,
    ));
    out
}

/// The layer of project `u` as [`ResolvedConfig::get_layer`] gives it.
pub open spec fn layer_for(
    h: Seq<u128>,
    ls: Seq<Result<CachedProjectConfigView, Seq<char>>>,
    u: u128,
) -> Result<CachedProjectConfigView, Seq<char>> {
    let i = position_of(h, u);
    if i < 0 {
        Err(missing_layer_message(u, true))
    } else if i >= ls.len() {
        Err(missing_layer_message(u, false))
    } else {
        ls[i]
    }
}

/// Whether a layer defines the script (`scripts`) or the variable `name`.
pub open spec fn defines(c: CachedProjectConfigView, scripts: bool, name: Seq<char>) -> bool {
    if scripts {
        first_value(c.scripts, name) is Some
    } else {
        first_value(c.vars, name) is Some
    }
}

/// How a project is named where its qualified name cannot be built.
pub open spec fn unknown_project(u: u128) -> Seq<char> {
    "<unknown: "@ + uuid_text(u) + ">"@
}

/// The qualified name of the first project of `h[j..]` whose layer defines
/// `name`, `fallback` if none does, or the error of the first layer that
/// cannot be had before it.
pub open spec fn source_from(
    v: GlobalIndexView,
    h: Seq<u128>,
    ls: Seq<Result<CachedProjectConfigView, Seq<char>>>,
    scripts: bool,
    name: Seq<char>,
    j: int,
    fallback: Seq<char>,
) -> Result<Seq<char>, Seq<char>>
    decreases h.len() - j,
{
    if j < 0 || j >= h.len() {
        Ok(fallback)
    } else {
        match layer_for(h, ls, h[j]) {
            Err(m) => Err(m),
            Ok(c) => if defines(c, scripts, name) {
                Ok(shown_name(v, h[j]))
            } else {
                source_from(v, h, ls, scripts, name, j + 1, fallback)
            },
        }
    }
}

/// The qualified name of the project whose layer defines the script (`key`
/// is `"scripts"`) or the variable `task_name`, searching from the project up
/// to the root; the project's own name when none does.
pub fn find_task_source(key: &str, task_name: &str, config: &ResolvedConfig, index: &GlobalIndex) -> (r:
    Result<String, String>)
    requires
        index@.wf(),
    ensures
        ({
            let want = source_from(
                index@,
                config.hierarchy@,
                config.layers_spec(),
                key@ == "scripts"@,
                task_name@,
                0,
                config.qualified_name@,
            );
            match r {
                Ok(s) => want == Ok::<Seq<char>, Seq<char>>(s@),
                Err(m) => want == Err::<Seq<char>, Seq<char>>(m@),
            }
        }),
{
    let scripts = str_eq(key, "scripts");
    let ghost h = config.hierarchy@;
    let ghost ls = config.layers_spec();
    let mut j: usize = 0;
    while j < config.hierarchy.len()
        invariant
            j <= h.len(),
            h == config.hierarchy@,
            ls == config.layers_spec(),
            index@.wf(),
            scripts == (key@ == "scripts"@),
            source_from(index@, h, ls, scripts, task_name@, 0, config.qualified_name@)
                == source_from(index@, h, ls, scripts, task_name@, j as int, config.qualified_name@),
        decreases h.len() - j,
    {
        let u = config.hierarchy[j];
        match config.get_layer(u) {
            Err(m) => {
                return Err(m);
            },
            Ok(layer) => {
                let found = if scripts {
                    find_task(&layer.scripts, task_name).is_some()
                } else {
                    find_var(&layer.vars, task_name).is_some()
                };
                if found {
                    return Ok(shown_name_of(index, u));
                }
            },
        }
        j = j + 1;
    }
    Ok(config.qualified_name.clone())
}

/// One entry of a list of scripts or variables: its name, the project it is
/// inherited from (`None` for the project's own), and its description where
/// that is not blank.
#[derive(Debug, Clone)]
pub struct ListedEntry {
    pub name: String,
    pub inherited_from: Option<String>,
    pub desc: Option<String>,
}

pub ghost struct ListedView {
    pub name: Seq<char>,
    pub inherited_from: Option<Seq<char>>,
    pub desc: Option<Seq<char>>,
}

impl View for ListedEntry {
    type V = ListedView;

    open spec fn view(&self) -> ListedView {
        ListedView {
            name: self.name@,
            inherited_from: opt_string_view(self.inherited_from),
            desc: opt_string_view(self.desc),
        }
    }
}

/// The names of a list paired with their positions.
pub open spec fn indexed_names<T>(s: Seq<(Seq<char>, T)>) -> Seq<(u128, Seq<char>)> {
    Seq::new(s.len(), |i: int| (i as u128, s[i].0))
}

/// A description as it is shown: blank ones are not.
pub open spec fn shown_desc(d: Option<Seq<char>>) -> Option<Seq<char>> {
    match d {
        Some(t) => if trim(t).len() > 0 {
            Some(t)
        } else {
            None
        },
        None => None,
    }
}

/// The entry for `name`, defined where `source` says, in project `own`.
pub open spec fn listed_item(
    name: Seq<char>,
    source: Seq<char>,
    own: Seq<char>,
    desc: Option<Seq<char>>,
) -> ListedView {
    ListedView {
        name,
        inherited_from: if source != own {
            Some(source)
        } else {
            None
        },
        desc: shown_desc(desc),
    }
}

/// Where the script (`scripts`) or variable `name` of a project is defined.
pub open spec fn item_source(
    v: GlobalIndexView,
    config: ResolvedConfig,
    scripts: bool,
    name: Seq<char>,
) -> Result<Seq<char>, Seq<char>> {
    source_from(
        v,
        config.hierarchy@,
        config.layers_spec(),
        scripts,
        name,
        0,
        config.qualified_name@,
    )
}

/// The entries for a list of (name, description) pairs, sorted by name, with
/// where each is defined (scripts when `scripts`, else variables); or the error
/// of the first of them whose source cannot be found.
pub open spec fn listing_ok(
    v: GlobalIndexView,
    config: ResolvedConfig,
    scripts: bool,
    items: Seq<(Seq<char>, Option<Seq<char>>)>,
    r: Result<Seq<ListedView>, Seq<char>>,
) -> bool {
    let order = sort_by_name(indexed_names(items));
    match r {
        Ok(out) => {
            &&& out.len() == order.len()
            &&& forall|k: int|
                0 <= k < order.len() ==> item_source(v, config, scripts, (#[trigger] order[k]).1) is Ok
                    && out[k] == listed_item(
                    order[k].1,
                    item_source(v, config, scripts, order[k].1)->Ok_0,
                    config.qualified_name@,
                    items[order[k].0 as int].1,
                )
        },
        Err(m) => exists|k: int|
            0 <= k < order.len() && item_source(v, config, scripts, (#[trigger] order[k]).1) == Err::<
                Seq<char>,
                Seq<char>,
            >(m) && forall|q: int|
                0 <= q < k ==> item_source(v, config, scripts, (#[trigger] order[q]).1) is Ok,
    }
}

/// The views of a list of entries.
pub open spec fn listed_view(s: Seq<ListedEntry>) -> Seq<ListedView> {
    s.map_values(|e: ListedEntry| e@)
}

/// The views of (name, description) pairs.
pub open spec fn named_descs(s: Seq<(String, Option<String>)>) -> Seq<(Seq<char>, Option<Seq<char>>)> {
    s.map_values(|p: (String, Option<String>)| (p.0@, opt_string_view(p.1)))
}

proof fn lemma_sorted_positions<T>(s: Seq<(Seq<char>, T)>)
    requires
        s.len() <= usize::MAX,
    ensures
        sort_by_name(indexed_names(s)).len() == s.len(),
        forall|k: int|
            0 <= k < s.len() ==> (#[trigger] sort_by_name(indexed_names(s))[k]).0 < s.len()
                && sort_by_name(indexed_names(s))[k].1 == s[sort_by_name(indexed_names(s))[k].0 as int].0,
{
    let ix = indexed_names(s);
    assert forall|i: int| 0 <= i < ix.len() implies (#[trigger] ix[i]).0 < s.len() && ix[i].1 == s[ix[i].0 as int].0 by {
        assert(ix[i].0 == i as u128);
        assert(i as u128 == i);
    }
    lemma_sort_keeps(ix, s);
}

/// Sorting keeps the elements' pairing of position and name.
proof fn lemma_sort_keeps<T>(ix: Seq<(u128, Seq<char>)>, s: Seq<(Seq<char>, T)>)
    requires
        ix.len() <= s.len(),
        forall|i: int| 0 <= i < ix.len() ==> (#[trigger] ix[i]).0 < s.len() && ix[i].1 == s[ix[i].0 as int].0,
    ensures
        sort_by_name(ix).len() == ix.len(),
        forall|k: int|
            0 <= k < ix.len() ==> (#[trigger] sort_by_name(ix)[k]).0 < s.len() && sort_by_name(ix)[k].1
                == s[sort_by_name(ix)[k].0 as int].0,
    decreases ix.len(),
{
    if ix.len() > 0 {
        let d = ix.drop_last();
        lemma_sort_keeps(d, s);
        lemma_insert_keeps(sort_by_name(d), ix.last(), s);
    }
}

proof fn lemma_insert_keeps<T>(
    o: Seq<(u128, Seq<char>)>,
    x: (u128, Seq<char>),
    s: Seq<(Seq<char>, T)>,
)
    requires
        x.0 < s.len() && x.1 == s[x.0 as int].0,
        forall|i: int| 0 <= i < o.len() ==> (#[trigger] o[i]).0 < s.len() && o[i].1 == s[o[i].0 as int].0,
    ensures
        insert_by_name(o, x).len() == o.len() + 1,
        forall|k: int|
            0 <= k < o.len() + 1 ==> (#[trigger] insert_by_name(o, x)[k]).0 < s.len() && insert_by_name(
                o,
                x,
            )[k].1 == s[insert_by_name(o, x)[k].0 as int].0,
    decreases o.len(),
{
    if o.len() > 0 && crate::text::str_lt(x.1, o.last().1) {
        lemma_insert_keeps(o.drop_last(), x, s);
        let a = insert_by_name(o.drop_last(), x);
        assert(insert_by_name(o, x) == a.push(o.last()));
        assert forall|k: int| 0 <= k < o.len() + 1 implies (#[trigger] insert_by_name(o, x)[k]).0
            < s.len() && insert_by_name(o, x)[k].1 == s[insert_by_name(o, x)[k].0 as int].0 by {
            if k < o.len() {
                assert(insert_by_name(o, x)[k] == a[k]);
            } else {
                assert(insert_by_name(o, x)[k] == o[o.len() - 1]);
            }
        }
    } else if o.len() > 0 {
        assert(insert_by_name(o, x) == o.push(x));
        assert forall|k: int| 0 <= k < o.len() + 1 implies (#[trigger] insert_by_name(o, x)[k]).0
            < s.len() && insert_by_name(o, x)[k].1 == s[insert_by_name(o, x)[k].0 as int].0 by {
            if k < o.len() {
                assert(insert_by_name(o, x)[k] == o[k]);
            }
        }
    }
}

/// The entries for (name, description) pairs, sorted by name, each with the
/// project it is inherited from.
fn listing_of(
    items: &Vec<(String, Option<String>)>,
    scripts: bool,
    config: &ResolvedConfig,
    index: &GlobalIndex,
) -> (r: Result<Vec<ListedEntry>, String>)
    requires
        index@.wf(),
    ensures
        listing_ok(
            index@,
            *config,
            scripts,
            named_descs(items@),
            match r {
                Ok(v) => Ok(listed_view(v@)),
                Err(m) => Err(m@),
            },
        ),
{
    let ghost nd = named_descs(items@);
    let mut pairs: Vec<(u128, String)> = Vec::new();
    let mut i: usize = 0;
    while i < items.len()
        invariant
            i <= items@.len(),
            nd == named_descs(items@),
            kids_view(pairs@) == sort_by_name(indexed_names(nd).subrange(0, i as int)),
        decreases items@.len() - i,
    {
        assert(indexed_names(nd).subrange(0, i + 1).drop_last() =~= indexed_names(nd).subrange(
            0,
            i as int,
        ));
        assert(indexed_names(nd)[i as int] == (i as u128, items@[i as int].0@));
        insert_kid(&mut pairs, (i as u128, items[i].0.clone()));
        i = i + 1;
    }
    assert(indexed_names(nd).subrange(0, i as int) =~= indexed_names(nd));
    let ghost order = kids_view(pairs@);
    proof {
        lemma_sorted_positions(nd);
    }
    let kind = if scripts {
        "scripts"
    } else {
        "vars"
    };
    proof {
        reveal_strlit("scripts");
        reveal_strlit("vars");
        assert("vars"@.len() != "scripts"@.len());
    }
    assert((kind@ == "scripts"@) == scripts);
    let mut out: Vec<ListedEntry> = Vec::new();
    let mut k: usize = 0;
    while k < pairs.len()
        invariant
            k <= pairs@.len(),
            order == kids_view(pairs@),
            order == sort_by_name(indexed_names(nd)),
            order.len() == nd.len(),
            nd == named_descs(items@),
            forall|q: int|
                0 <= q < nd.len() ==> (#[trigger] order[q]).0 < nd.len() && order[q].1
                    == nd[order[q].0 as int].0,
            index@.wf(),
            (kind@ == "scripts"@) == scripts,
            out@.len() == k,
            forall|q: int|
                0 <= q < k ==> item_source(index@, *config, scripts, (#[trigger] order[q]).1) is Ok
                    && listed_view(out@)[q] == listed_item(
                    order[q].1,
                    item_source(index@, *config, scripts, order[q].1)->Ok_0,
                    config.qualified_name@,
                    nd[order[q].0 as int].1,
                ),
        decreases pairs@.len() - k,
    {
        let name = &pairs[k].1;
        assert(order[k as int] == (pairs@[k as int].0, pairs@[k as int].1@));
        let src = find_task_source(kind, name.as_str(), config, index);
        match src {
            Err(m) => {
                assert(item_source(index@, *config, scripts, order[k as int].1) == Err::<
                    Seq<char>,
                    Seq<char>,
                >(m@));
                return Err(m);
            },
            Ok(source) => {
                let pos = pairs[k].0 as usize;
                assert(nd[pos as int] == (items@[pos as int].0@, opt_string_view(items@[pos as int].1)));
                let desc = match &items[pos].1 {
                    Some(d) => {
                        let t = trim_str(d.as_str());
                        if !t.as_str().is_empty() {
                            Some(d.clone())
                        } else {
                            None
                        }
                    },
                    None => None,
                };
                let inherited_from = if str_eq(source.as_str(), config.qualified_name.as_str()) {
                    None
                } else {
                    Some(source)
                };
                let e = ListedEntry { name: name.clone(), inherited_from, desc };
                let ghost before = listed_view(out@);
                out.push(e);
                assert(listed_view(out@) =~= before.push(e@));
            },
        }
        k = k + 1;
    }
    Ok(out)
}

/// The views of scripts as (name, description) pairs.
pub open spec fn script_descs(s: Seq<(Seq<char>, TaskView)>) -> Seq<(Seq<char>, Option<Seq<char>>)> {
    s.map_values(|p: (Seq<char>, TaskView)| (p.0, p.1.desc))
}

/// The views of variables as (name, description) pairs.
pub open spec fn var_descs(s: Seq<(Seq<char>, CachedVarView)>) -> Seq<(Seq<char>, Option<Seq<char>>)> {
    s.map_values(|p: (Seq<char>, CachedVarView)| (p.0, p.1.desc))
}

/// The scripts a project can run, sorted by name, each with the project it is
/// inherited from and its description.
pub fn script_listing(config: &ResolvedConfig, index: &GlobalIndex) -> (r: Result<
    Vec<ListedEntry>,
    String,
>)
    requires
        index@.wf(),
    ensures
        match root_failure(config.layers_spec()) {
            Some(m) => r is Err && r->Err_0@ == m,
            None => listing_ok(
                index@,
                *config,
                true,
                script_descs(merged_scripts(config.layers_spec())),
                match r {
                    Ok(v) => Ok(listed_view(v@)),
                    Err(m) => Err(m@),
                },
            ),
        },
{
    let all = match config.get_all_scripts() {
        Ok(a) => a,
        Err(m) => {
            return Err(m);
        },
    };
    let mut items: Vec<(String, Option<String>)> = Vec::new();
    let mut i: usize = 0;
    while i < all.len()
        invariant
            i <= all@.len(),
            named_descs(items@) == script_descs(pairs_view(all@)).subrange(0, i as int),
        decreases all@.len() - i,
    {
        let ghost before = named_descs(items@);
        items.push((all[i].0.clone(), all[i].1.desc.clone()));
        assert(named_descs(items@) =~= before.push((all@[i as int].0@, all@[i as int].1@.desc)));
        assert(script_descs(pairs_view(all@)).subrange(0, i + 1) =~= script_descs(
            pairs_view(all@),
        ).subrange(0, i as int).push((all@[i as int].0@, all@[i as int].1@.desc)));
        i = i + 1;
    }
    assert(script_descs(pairs_view(all@)).subrange(0, i as int) =~= script_descs(pairs_view(all@)));
    listing_of(&items, true, config, index)
}

/// The variables of a project, sorted by name, each with the project it is
/// inherited from and its description.
pub fn var_listing(config: &ResolvedConfig, index: &GlobalIndex) -> (r: Result<
    Vec<ListedEntry>,
    String,
>)
    requires
        index@.wf(),
    ensures
        match root_failure(config.layers_spec()) {
            Some(m) => r is Err && r->Err_0@ == m,
            None => listing_ok(
                index@,
                *config,
                false,
                var_descs(merged_vars(config.layers_spec())),
                match r {
                    Ok(v) => Ok(listed_view(v@)),
                    Err(m) => Err(m@),
                },
            ),
        },
{
    let all = match config.get_all_vars() {
        Ok(a) => a,
        Err(m) => {
            return Err(m);
        },
    };
    let mut items: Vec<(String, Option<String>)> = Vec::new();
    let mut i: usize = 0;
    while i < all.len()
        invariant
            i <= all@.len(),
            named_descs(items@) == var_descs(pairs_view(all@)).subrange(0, i as int),
        decreases all@.len() - i,
    {
        let ghost before = named_descs(items@);
        items.push((all[i].0.clone(), all[i].1.desc.clone()));
        assert(named_descs(items@) =~= before.push((all@[i as int].0@, all@[i as int].1@.desc)));
        assert(var_descs(pairs_view(all@)).subrange(0, i + 1) =~= var_descs(pairs_view(all@)).subrange(
            0,
            i as int,
        ).push((all@[i as int].0@, all@[i as int].1@.desc)));
        i = i + 1;
    }
    assert(var_descs(pairs_view(all@)).subrange(0, i as int) =~= var_descs(pairs_view(all@)));
    listing_of(&items, false, config, index)
}

/// How project `u` is named in reports: its qualified name, or a placeholder
/// with its UUID.
pub open spec fn shown_name(v: GlobalIndexView, u: u128) -> Seq<char> {
    match qualified_name(v, u) {
        Some(q) => q,
        None => unknown_project(u),
    }
}

fn shown_name_of(index: &GlobalIndex, u: u128) -> (r: String)
    requires
        index@.wf(),
    ensures
        r@ == shown_name(index@, u),
{
    match build_qualified_name(u, index) {
        Some(q) => q,
        None => {
            let mut t = owned("<unknown: ");
            let id = uuid_to_string(u);
            push_str(&mut t, id.as_str());
            push_str(&mut t, ">");
            t
        },
    }
}

/// The names of the projects of a hierarchy, in order.
pub fn hierarchy_names(config: &ResolvedConfig, index: &GlobalIndex) -> (r: Vec<String>)
    requires
        index@.wf(),
    ensures
        strs_view(r@) == config.hierarchy@.map_values(|u: u128| shown_name(index@, u)),
{
    let mut out: Vec<String> = Vec::new();
    let mut i: usize = 0;
    while i < config.hierarchy.len()
        invariant
            i <= config.hierarchy@.len(),
            index@.wf(),
            strs_view(out@) == config.hierarchy@.subrange(0, i as int).map_values(
                |u: u128| shown_name(index@, u),
            ),
        decreases config.hierarchy@.len() - i,
    {
        let n = shown_name_of(index, config.hierarchy[i]);
        let ghost before = strs_view(out@);
        out.push(n);
        assert(strs_view(out@) =~= before.push(n@));
        assert(config.hierarchy@.subrange(0, i + 1).map_values(|u: u128| shown_name(index@, u))
            =~= config.hierarchy@.subrange(0, i as int).map_values(|u: u128| shown_name(index@, u)).push(
            shown_name(index@, config.hierarchy@[i as int]),
        ));
        i = i + 1;
    }
    assert(config.hierarchy@.subrange(0, i as int) =~= config.hierarchy@);
    out
}

/// One `open` command of a project: its key, whether it is the default, and
/// its description where that is not blank.
#[derive(Debug, Clone)]
pub struct OpenLine {
    pub key: String,
    pub is_default: bool,
    pub desc: Option<String>,
}

/// The `open` commands of a project, sorted by key.
pub fn open_listing(open_with: &ResolvedOpenWithConfig) -> (r: Vec<OpenLine>)
    ensures
        ({
            let items = script_descs(pairs_view(open_with.commands@));
            let order = sort_by_name(indexed_names(items));
            &&& r@.len() == order.len()
            &&& forall|k: int|
                0 <= k < order.len() ==> (#[trigger] r@[k]).key@ == order[k].1 && r@[k].is_default
                    == (opt_string_view(open_with.default) == Some(order[k].1)) && opt_string_view(
                    r@[k].desc,
                ) == shown_desc(items[order[k].0 as int].1)
        }),
{
    let ghost items = script_descs(pairs_view(open_with.commands@));
    let mut pairs: Vec<(u128, String)> = Vec::new();
    let mut i: usize = 0;
    while i < open_with.commands.len()
        invariant
            i <= open_with.commands@.len(),
            items == script_descs(pairs_view(open_with.commands@)),
            kids_view(pairs@) == sort_by_name(indexed_names(items).subrange(0, i as int)),
        decreases open_with.commands@.len() - i,
    {
        assert(indexed_names(items).subrange(0, i + 1).drop_last() =~= indexed_names(items).subrange(
            0,
            i as int,
        ));
        assert(indexed_names(items)[i as int] == (i as u128, open_with.commands@[i as int].0@));
        insert_kid(&mut pairs, (i as u128, open_with.commands[i].0.clone()));
        i = i + 1;
    }
    assert(indexed_names(items).subrange(0, i as int) =~= indexed_names(items));
    let ghost order = kids_view(pairs@);
    proof {
        lemma_sorted_positions(items);
    }
    let mut out: Vec<OpenLine> = Vec::new();
    let mut k: usize = 0;
    while k < pairs.len()
        invariant
            k <= pairs@.len(),
            order == kids_view(pairs@),
            order == sort_by_name(indexed_names(items)),
            order.len() == items.len(),
            items == script_descs(pairs_view(open_with.commands@)),
            forall|q: int|
                0 <= q < items.len() ==> (#[trigger] order[q]).0 < items.len() && order[q].1
                    == items[order[q].0 as int].0,
            out@.len() == k,
            forall|q: int|
                0 <= q < k ==> (#[trigger] out@[q]).key@ == order[q].1 && out@[q].is_default == (
                opt_string_view(open_with.default) == Some(order[q].1)) && opt_string_view(
                    out@[q].desc,
                ) == shown_desc(items[order[q].0 as int].1),
        decreases pairs@.len() - k,
    {
        assert(order[k as int] == (pairs@[k as int].0, pairs@[k as int].1@));
        let pos = pairs[k].0 as usize;
        assert(items[pos as int] == (
            open_with.commands@[pos as int].0@,
            open_with.commands@[pos as int].1@.desc,
        ));
        let desc = match &open_with.commands[pos].1.desc {
            Some(d) => {
                let t = trim_str(d.as_str());
                if !t.as_str().is_empty() {
                    Some(d.clone())
                } else {
                    None
                }
            },
            None => None,
        };
        let is_default = match &open_with.default {
            Some(d) => str_eq(d.as_str(), pairs[k].1.as_str()),
            None => false,
        };
        out.push(OpenLine { key: pairs[k].1.clone(), is_default, desc });
        k = k + 1;
    }
    out
}

/// The environment of a project, sorted by variable name.
pub fn env_listing(config: &ResolvedConfig) -> (r: Result<Vec<(String, String)>, String>)
    ensures
        match root_failure(config.layers_spec()) {
            Some(m) => r is Err && r->Err_0@ == m,
            None => r is Ok && ({
                let env = merged_env(config.layers_spec());
                let order = sort_by_name(indexed_names(env));
                &&& pairs_view(r->Ok_0@).len() == order.len()
                &&& forall|k: int|
                    0 <= k < order.len() ==> #[trigger] pairs_view(r->Ok_0@)[k] == env[order[k].0 as int]
            }),
        },
{
    let all = match config.get_env() {
        Ok(a) => a,
        Err(m) => {
            return Err(m);
        },
    };
    let ghost env = pairs_view(all@);
    let mut pairs: Vec<(u128, String)> = Vec::new();
    let mut i: usize = 0;
    while i < all.len()
        invariant
            i <= all@.len(),
            env == pairs_view(all@),
            kids_view(pairs@) == sort_by_name(indexed_names(env).subrange(0, i as int)),
        decreases all@.len() - i,
    {
        assert(indexed_names(env).subrange(0, i + 1).drop_last() =~= indexed_names(env).subrange(
            0,
            i as int,
        ));
        assert(indexed_names(env)[i as int] == (i as u128, all@[i as int].0@));
        insert_kid(&mut pairs, (i as u128, all[i].0.clone()));
        i = i + 1;
    }
    assert(indexed_names(env).subrange(0, i as int) =~= indexed_names(env));
    let ghost order = kids_view(pairs@);
    proof {
        lemma_sorted_positions(env);
    }
    let mut out: Vec<(String, String)> = Vec::new();
    let mut k: usize = 0;
    while k < pairs.len()
        invariant
            k <= pairs@.len(),
            order == kids_view(pairs@),
            order == sort_by_name(indexed_names(env)),
            order.len() == env.len(),
            env == pairs_view(all@),
            forall|q: int| 0 <= q < env.len() ==> (#[trigger] order[q]).0 < env.len(),
            pairs_view(out@).len() == k,
            forall|q: int| 0 <= q < k ==> #[trigger] pairs_view(out@)[q] == env[order[q].0 as int],
        decreases pairs@.len() - k,
    {
        assert(order[k as int] == (pairs@[k as int].0, pairs@[k as int].1@));
        let pos = pairs[k].0 as usize;
        assert(env[pos as int] == (all@[pos as int].0@, all@[pos as int].1@));
        let ghost before = pairs_view(out@);
        out.push((all[pos].0.clone(), all[pos].1.clone()));
        assert(pairs_view(out@) =~= before.push(env[pos as int]));
        k = k + 1;
    }
    Ok(out)
}

} // verus!
