//! Sessions that came out of each other: chains of files, and edges between the sessions of
//! providers.
use vstd::prelude::*;

use crate::commands::extract::truth;
use crate::commands::helpers;
use crate::commands::helpers::{has_short_id, id_head, text_view};
use crate::commands::info::{given_line, say_given};
use crate::commands::OutputFormat;
use crate::json;
use crate::json::{
    fields_view, given_text, number_json, optional_text, texts_json, time_json, Json, JsonView,
};
use crate::model::Project;
use crate::order;
use crate::order::{sorted_by, time_before};
use crate::provider::{
    copy_text, skips_json, skips_view, KeyView, LineageEdge, LineageEdgeKind, LogicalSessionKey,
    SkippedProvider, UnifiedProject,
};
use crate::text;
use crate::text::{decimal, has, joined, views};
use crate::time;
use crate::time::shown_or;

verus! {

/// Arguments for the chain command.
#[derive(Debug, Clone, PartialEq, Eq)]
pub struct ChainArgs {
    /// The providers whose edges are shown; none for the chains of the session directory.
    pub provider: Vec<String>,
    /// The project, by a part of its path.
    pub project: Option<String>,
}

/// What is shown.
#[derive(Debug, Clone, Copy, PartialEq, Eq)]
pub enum ChainRoute {
    /// The edges between the sessions of providers.
    Provider,
    /// The chains of the session directory.
    Classic,
}

/// What is shown: the edges of providers where any is asked for.
pub fn run(args: &ChainArgs) -> (r: ChainRoute)
    ensures
        r == (if args.provider@.len() > 0 {
            ChainRoute::Provider
        } else {
            ChainRoute::Classic
        }),
{
    if args.provider.len() > 0 {
        ChainRoute::Provider
    } else {
        ChainRoute::Classic
    }
}

// ---------------------------------------------------------------------------
// Chains of files
// ---------------------------------------------------------------------------

/// A file of a chain.
#[derive(Debug, Clone, PartialEq, Eq)]
pub struct ChainMember {
    /// Its id.
    pub file_id: String,
    /// When it began.
    pub started: Option<i128>,
}

/// Files that continue each other.
#[derive(Debug, Clone, PartialEq, Eq)]
pub struct SessionChain {
    /// The id of the first.
    pub root_id: String,
    /// The name of the chain.
    pub slug: Option<String>,
    /// The files.
    pub members: Vec<ChainMember>,
    /// When it began.
    pub started: Option<i128>,
}

/// The latest chain first; those whose time is not known come last.
pub open spec fn begun_later() -> spec_fn(SessionChain, SessionChain) -> bool {
    |a: SessionChain, b: SessionChain| time_before(b.started, a.started)
}

fn is_begun_later(a: &SessionChain, b: &SessionChain) -> (o: bool)
    ensures
        o == begun_later()(*a, *b),
{
    order::earlier(b.started, a.started)
}

/// With this text in its path, where one is asked for.
pub open spec fn path_has(filter: Option<Seq<char>>) -> spec_fn(Project) -> bool {
    |p: Project| filter matches Some(f) ==> has(p.best_path@, f)
}

/// The projects whose chains are shown.
pub fn chain_projects(projects: Vec<Project>, filter: &Option<String>) -> (r: Vec<Project>)
    ensures
        r@ == projects@.filter(path_has(text_view(*filter))),
{
    let test = |p: &Project| -> (o: bool)
        ensures
            o == path_has(text_view(*filter))(*p),
        {
            match filter {
                Some(f) => text::contains(p.best_path.as_str(), f.as_str()),
                None => true,
            }
        };
    order::keep(projects, test, Ghost(path_has(text_view(*filter))))
}

/// The ids of the chain can be shortened.
pub open spec fn chain_ok(c: SessionChain) -> bool {
    has_short_id(c.root_id@) && forall|i: int|
        0 <= i < c.members@.len() ==> has_short_id((#[trigger] c.members@[i]).file_id@)
}

/// A text, or other words where there is none.
pub open spec fn text_or(s: Option<String>, other: Seq<char>) -> Seq<char> {
    match s {
        Some(t) => t@,
        None => other,
    }
}

/// A text, or other words where there is none.
pub fn write_or(s: &Option<String>, other: &str) -> (r: String)
    ensures
        r@ == text_or(*s, other@),
{
    match s {
        Some(t) => t.clone(),
        None => other.to_owned(),
    }
}

/// The line of a file.
pub open spec fn member_lines(i: int, m: ChainMember) -> Seq<Seq<char>> {
    seq![
        "    "@ + decimal((i + 1) as nat) + ". "@ + id_head(m.file_id@) + " ("@ + (if i == 0 {
            "root"@
        } else {
            "cont"@
        }) + ", "@ + shown_or(m.started, "%H:%M"@, "??:??"@) + ")"@,
    ]
}

/// The lines of a chain.
pub open spec fn chain_lines(c: SessionChain) -> Seq<Seq<char>> {
    seq![
        "  "@ + id_head(c.root_id@) + " ["@ + text_or(c.slug, "(no slug)"@) + "] ("@ + decimal(
            c.members@.len(),
        ) + " files, started "@ + shown_or(c.started, "%Y-%m-%d %H:%M UTC"@, "unknown"@) + ")"@,
    ] + text::spread_numbered(c.members@, |i: int, m: ChainMember| member_lines(i, m)) + seq![""@]
}

/// What is printed of the chains of a project; nothing where there are none.
pub open spec fn project_chain_lines(path: Seq<char>, chains: Seq<SessionChain>) -> Seq<Seq<char>> {
    if chains.len() == 0 {
        Seq::empty()
    } else {
        seq!["Project: "@ + path, "Chains: "@ + decimal(chains.len()), ""@] + text::spread(
            sorted_by(chains, begun_later()),
            |c: SessionChain| chain_lines(c),
        )
    }
}

fn write_member(i: usize, m: &ChainMember) -> (r: Vec<String>)
    requires
        i < usize::MAX,
        has_short_id(m.file_id@),
    ensures
        views(r@) == member_lines(i as int, *m),
{
    let mut out: Vec<String> = Vec::new();
    let place = text::size(i + 1);
    let id = helpers::short_id(m.file_id.as_str());
    let word: String = if i == 0 {
        "root".to_owned()
    } else {
        "cont".to_owned()
    };
    let clock = time::show_or(m.started, "%H:%M", "??:??");
    let head = text::cat5("    ", place.as_str(), ". ", id.as_str(), " (");
    text::say5(&mut out, head.as_str(), word.as_str(), ", ", clock.as_str(), ")");
    proof {
        assert(views(out@) =~= member_lines(i as int, *m));
    }
    out
}

fn write_chain(c: &SessionChain) -> (r: Vec<String>)
    requires
        chain_ok(*c),
    ensures
        views(r@) == chain_lines(*c),
{
    let mut out: Vec<String> = Vec::new();
    let id = helpers::short_id(c.root_id.as_str());
    let slug = write_or(&c.slug, "(no slug)");
    let count = text::size(c.members.len());
    let started = time::show_or(c.started, "%Y-%m-%d %H:%M UTC", "unknown");
    let head = text::cat5("  ", id.as_str(), " [", slug.as_str(), "] (");
    text::say5(
        &mut out,
        head.as_str(),
        count.as_str(),
        " files, started ",
        started.as_str(),
        ")",
    );
    let write = |i: usize, m: &ChainMember| -> (o: Vec<String>)
        requires
            i < usize::MAX,
            has_short_id(m.file_id@),
        ensures
            views(o@) == member_lines(i as int, *m),
        { write_member(i, m) };
    let ghost g = |i: int, m: ChainMember| member_lines(i, m);
    text::say_numbered(&mut out, &c.members, write, Ghost(g));
    text::say(&mut out, "");
    proof {
        assert(views(out@) =~= chain_lines(*c));
    }
    out
}

/// What is printed of the chains of a project: the latest first; nothing where there are none.
pub fn run_classic(path: &str, chains: Vec<SessionChain>) -> (r: Vec<String>)
    requires
        forall|i: int| 0 <= i < chains@.len() ==> chain_ok(#[trigger] chains@[i]),
    ensures
        views(r@) == project_chain_lines(path@, chains@),
{
    let mut out: Vec<String> = Vec::new();
    proof {
        assert(views(out@) =~= Seq::empty());
    }
    if chains.len() == 0 {
        return out;
    }
    let ghost all = chains@;
    let count = text::size(chains.len());
    let sorted = order::sort(chains, is_begun_later, Ghost(begun_later()));
    proof {
        assert forall|i: int| 0 <= i < sorted@.len() implies chain_ok(#[trigger] sorted@[i]) by {
            assert(sorted@.contains(sorted@[i]));
            order::lemma_sorted_contains(all, begun_later(), sorted@[i]);
            let k = choose|k: int| 0 <= k < all.len() && all[k] == sorted@[i];
            assert(chain_ok(all[k]));
        }
    }
    text::say2(&mut out, "Project: ", path);
    text::say2(&mut out, "Chains: ", count.as_str());
    text::say(&mut out, "");
    text::say_all(&mut out, &sorted, write_chain, Ghost(|c: SessionChain| chain_lines(c)));
    proof {
        assert(views(out@) =~= project_chain_lines(path@, all));
    }
    out
}

/// What is said at the end: something only where no project has a chain. `counts` gives the
/// number of chains of each project.
pub fn no_chains_line(counts: &Vec<usize>) -> (r: Option<String>)
    ensures
        match r {
            Some(line) => line@ == "No session chains found."@ && forall|i: int|
                0 <= i < counts@.len() ==> #[trigger] counts@[i] == 0,
            None => exists|i: int| 0 <= i < counts@.len() && #[trigger] counts@[i] > 0,
        },
{
    let mut i: usize = 0;
    while i < counts.len()
        invariant
            i <= counts@.len(),
            forall|k: int| 0 <= k < i ==> #[trigger] counts@[k] == 0,
        decreases counts@.len() - i,
    {
        let count: usize = counts[i];
        if count > 0 {
            assert(counts@[i as int] > 0);
            return None;
        }
        i = i + 1;
    }
    Some("No session chains found.".to_owned())
}

// ---------------------------------------------------------------------------
// Edges between the sessions of providers
// ---------------------------------------------------------------------------

/// The word for a kind of edge.
pub open spec fn kind_word(kind: LineageEdgeKind) -> Seq<char> {
    match kind {
        LineageEdgeKind::Continuation => "continuation"@,
        LineageEdgeKind::Fork => "fork"@,
        LineageEdgeKind::Spawn { .. } => "spawn"@,
    }
}

/// The word for a kind of edge.
pub fn lineage_kind(kind: &LineageEdgeKind) -> (r: String)
    ensures
        r@ == kind_word(*kind),
{
    match kind {
        LineageEdgeKind::Continuation => "continuation".to_owned(),
        LineageEdgeKind::Fork => "fork".to_owned(),
        LineageEdgeKind::Spawn { .. } => "spawn".to_owned(),
    }
}

/// The character that stands for one in a cell of a table: a blank for what would end the cell
/// or the row.
pub open spec fn cell_char(c: char) -> char {
    if c == '\t' || c == '\r' || c == '\n' {
        ' '
    } else {
        c
    }
}

/// A text as a cell of a table.
pub open spec fn cell_of(s: Seq<char>) -> Seq<char> {
    s.map_values(|c: char| cell_char(c))
}

/// A text as a cell of a table.
pub fn tsv_cell(value: &str) -> (r: String)
    ensures
        r@ == cell_of(value@),
{
    let chars = text::chars_of(value);
    let mut out: Vec<char> = Vec::new();
    let mut i: usize = 0;
    while i < chars.len()
        invariant
            i <= chars@.len(),
            out@ == cell_of(chars@).take(i as int),
        decreases chars@.len() - i,
    {
        let c: char = chars[i];
        if c == '\t' || c == '\r' || c == '\n' {
            out.push(' ');
        } else {
            out.push(c);
        }
        proof {
            assert(cell_of(chars@).take(i + 1) =~= cell_of(chars@).take(i as int).push(
                cell_char(c),
            ));
        }
        i = i + 1;
    }
    proof {
        assert(cell_of(chars@).take(i as int) =~= cell_of(chars@));
    }
    let total: usize = out.len();
    let cell = text::text_of(&out, 0, total);
    proof {
        assert(cell@ =~= out@);
    }
    cell
}

/// A cell is as long as its text, and holds nothing that would end the cell or the row.
pub proof fn cells_stay_in_place(s: Seq<char>)
    ensures
        cell_of(s).len() == s.len(),
        !cell_of(s).contains('\t'),
        !cell_of(s).contains('\r'),
        !cell_of(s).contains('\n'),
{
    if cell_of(s).contains('\t') {
        let k = choose|k: int| 0 <= k < s.len() && cell_of(s)[k] == '\t';
        assert(cell_of(s)[k] == cell_char(s[k]));
    }
    if cell_of(s).contains('\r') {
        let k = choose|k: int| 0 <= k < s.len() && cell_of(s)[k] == '\r';
        assert(cell_of(s)[k] == cell_char(s[k]));
    }
    if cell_of(s).contains('\n') {
        let k = choose|k: int| 0 <= k < s.len() && cell_of(s)[k] == '\n';
        assert(cell_of(s)[k] == cell_char(s[k]));
    }
}

/// A session that is known, and its project.
#[derive(Debug, Clone, PartialEq, Eq)]
pub struct KnownSession {
    /// The session.
    pub key: LogicalSessionKey,
    /// The name under which its project is shown.
    pub project: String,
}

/// The project of a session, as it was told last; nothing where the session is not known.
pub open spec fn project_of(known: Seq<KnownSession>, key: KeyView) -> Option<Seq<char>>
    decreases known.len(),
{
    if known.len() == 0 {
        None
    } else if known.last().key@ == key {
        Some(known.last().project@)
    } else {
        project_of(known.drop_last(), key)
    }
}

/// A list of sessions holds this one.
pub open spec fn holds_key(keys: Seq<LogicalSessionKey>, key: KeyView) -> bool {
    exists|i: int| 0 <= i < keys.len() && (#[trigger] keys[i])@ == key
}

fn find_project(known: &Vec<KnownSession>, key: &LogicalSessionKey) -> (r: Option<String>)
    ensures
        text_view(r) == project_of(known@, key@),
{
    let mut i: usize = known.len();
    proof {
        assert(known@.take(i as int) =~= known@);
    }
    while i > 0
        invariant
            i <= known@.len(),
            project_of(known@.take(i as int), key@) == project_of(known@, key@),
        decreases i,
    {
        proof {
            let part = known@.take(i as int);
            assert(part.last() == known@[i - 1]);
            assert(part.drop_last() =~= known@.take(i - 1));
        }
        if known[i - 1].key.same(key) {
            return Some(known[i - 1].project.clone());
        }
        i = i - 1;
    }
    None
}

fn has_key(keys: &Vec<LogicalSessionKey>, key: &LogicalSessionKey) -> (r: bool)
    ensures
        r == holds_key(keys@, key@),
{
    let mut i: usize = 0;
    while i < keys.len()
        invariant
            i <= keys@.len(),
            forall|k: int| 0 <= k < i ==> (#[trigger] keys@[k])@ != key@,
        decreases keys@.len() - i,
    {
        if keys[i].same(key) {
            return true;
        }
        i = i + 1;
    }
    false
}

/// A row for an edge.
#[derive(Debug, Clone, PartialEq, Eq)]
pub struct ProviderLineageRow {
    /// The provider.
    pub provider: String,
    /// The kind of edge.
    pub kind: String,
    /// The earlier session.
    pub from: String,
    /// The later session.
    pub to: String,
    /// The project of the earlier session.
    pub from_project: Option<String>,
    /// The project of the later session.
    pub to_project: Option<String>,
    /// Whether the earlier session is not known.
    pub dangling_from: bool,
    /// Whether the later session is not known.
    pub dangling_to: bool,
    /// The call that spawned it.
    pub tool_use_id: Option<String>,
    /// The kind of agent.
    pub agent_type: Option<String>,
    /// What it was spawned for.
    pub description: Option<String>,
}

/// The contents of a row.
#[verifier::ext_equal]
pub struct LineageView {
    /// The provider.
    pub provider: Seq<char>,
    /// The kind of edge.
    pub kind: Seq<char>,
    /// The earlier session.
    pub from: Seq<char>,
    /// The later session.
    pub to: Seq<char>,
    /// The project of the earlier session.
    pub from_project: Option<Seq<char>>,
    /// The project of the later session.
    pub to_project: Option<Seq<char>>,
    /// Whether the earlier session is not known.
    pub dangling_from: bool,
    /// Whether the later session is not known.
    pub dangling_to: bool,
    /// The call that spawned it.
    pub tool_use_id: Option<Seq<char>>,
    /// The kind of agent.
    pub agent_type: Option<Seq<char>>,
    /// What it was spawned for.
    pub description: Option<Seq<char>>,
}

impl View for ProviderLineageRow {
    type V = LineageView;

    open spec fn view(&self) -> LineageView {
        LineageView {
            provider: self.provider@,
            kind: self.kind@,
            from: self.from@,
            to: self.to@,
            from_project: text_view(self.from_project),
            to_project: text_view(self.to_project),
            dangling_from: self.dangling_from,
            dangling_to: self.dangling_to,
            tool_use_id: text_view(self.tool_use_id),
            agent_type: text_view(self.agent_type),
            description: text_view(self.description),
        }
    }
}

/// The row of an edge.
pub open spec fn row_of(edge: LineageEdge, known: Seq<KnownSession>) -> LineageView {
    let spawn = match edge.kind {
        LineageEdgeKind::Spawn { tool_use_id, agent_type, description } => (
            text_view(tool_use_id),
            text_view(agent_type),
            text_view(description),
        ),
        _ => (None, None, None),
    };
    LineageView {
        provider: edge.from.provider@,
        kind: kind_word(edge.kind),
        from: edge.from.qualified@,
        to: edge.to.qualified@,
        from_project: project_of(known, edge.from@),
        to_project: project_of(known, edge.to@),
        dangling_from: project_of(known, edge.from@) is None,
        dangling_to: project_of(known, edge.to@) is None,
        tool_use_id: spawn.0,
        agent_type: spawn.1,
        description: spawn.2,
    }
}

/// The edges that touch one of these sessions; all where none are asked for.
pub open spec fn touches(members: Option<Vec<LogicalSessionKey>>) -> spec_fn(LineageEdge) -> bool {
    |edge: LineageEdge|
        match members {
            Some(keys) => holds_key(keys@, edge.from@) || holds_key(keys@, edge.to@),
            None => true,
        }
}

/// The rows of the edges that are shown.
pub open spec fn lineage_rows(
    edges: Seq<LineageEdge>,
    known: Seq<KnownSession>,
    members: Option<Vec<LogicalSessionKey>>,
) -> Seq<LineageView> {
    edges.filter(touches(members)).map_values(|edge: LineageEdge| row_of(edge, known))
}

/// The contents of rows.
pub open spec fn rows_view(rows: Seq<ProviderLineageRow>) -> Seq<LineageView> {
    rows.map_values(|r: ProviderLineageRow| r@)
}

fn write_row(edge: &LineageEdge, known: &Vec<KnownSession>) -> (r: ProviderLineageRow)
    ensures
        r@ == row_of(*edge, known@),
{
    let from_project = find_project(known, &edge.from);
    let to_project = find_project(known, &edge.to);
    let dangling_from: bool = from_project.is_none();
    let dangling_to: bool = to_project.is_none();
    let spawn: (Option<String>, Option<String>, Option<String>) = match &edge.kind {
        LineageEdgeKind::Spawn { tool_use_id, agent_type, description } => (
            copy_text(tool_use_id),
            copy_text(agent_type),
            copy_text(description),
        ),
        _ => (None, None, None),
    };
    ProviderLineageRow {
        provider: edge.from.provider.clone(),
        kind: lineage_kind(&edge.kind),
        from: edge.from.qualified.clone(),
        to: edge.to.qualified.clone(),
        from_project,
        to_project,
        dangling_from,
        dangling_to,
        tool_use_id: spawn.0,
        agent_type: spawn.1,
        description: spawn.2,
    }
}

/// The rows of the edges that touch one of the given sessions, or of all edges.
pub fn provider_lineage_rows(
    edges: &Vec<LineageEdge>,
    known: &Vec<KnownSession>,
    members: &Option<Vec<LogicalSessionKey>>,
) -> (r: Vec<ProviderLineageRow>)
    ensures
        rows_view(r@) == lineage_rows(edges@, known@, *members),
{
    let mut out: Vec<ProviderLineageRow> = Vec::new();
    let mut i: usize = 0;
    let ghost p = touches(*members);
    let ghost g = |edge: LineageEdge| row_of(edge, known@);
    proof {
        assert(edges@.take(0) =~= Seq::empty());
        assert(edges@.take(0).filter(p) =~= Seq::empty());
        assert(rows_view(out@) =~= Seq::empty());
        assert(edges@.take(0).filter(p).map_values(g) =~= Seq::empty());
    }
    while i < edges.len()
        invariant
            i <= edges@.len(),
            p == touches(*members),
            g == (|edge: LineageEdge| row_of(edge, known@)),
            rows_view(out@) == edges@.take(i as int).filter(p).map_values(g),
        decreases edges@.len() - i,
    {
        let edge = &edges[i];
        let wanted: bool = match members {
            Some(keys) => has_key(keys, &edge.from) || has_key(keys, &edge.to),
            None => true,
        };
        proof {
            broadcast use Seq::lemma_filter_push;

            assert(edges@.take(i + 1) =~= edges@.take(i as int).push(*edge));
        }
        if wanted {
            let row = write_row(edge, known);
            let ghost before = rows_view(out@);
            out.push(row);
            proof {
                let kept = edges@.take(i as int).filter(p);
                assert(rows_view(out@) =~= before.push(row_of(*edge, known@)));
                assert(kept.push(*edge).map_values(g) =~= kept.map_values(g).push(g(*edge)));
            }
        }
        i = i + 1;
    }
    proof {
        assert(edges@.take(i as int) =~= edges@);
    }
    out
}

/// An end of an edge is marked as missing exactly where its project is not known.
pub proof fn missing_ends_are_marked(edge: LineageEdge, known: Seq<KnownSession>)
    ensures
        row_of(edge, known).dangling_from <==> row_of(edge, known).from_project is None,
        row_of(edge, known).dangling_to <==> row_of(edge, known).to_project is None,
        row_of(edge, known).dangling_from <==> !known_key(known, edge.from@),
        row_of(edge, known).dangling_to <==> !known_key(known, edge.to@),
{
    lemma_known(known, edge.from@);
    lemma_known(known, edge.to@);
}

/// A session is known.
pub open spec fn known_key(known: Seq<KnownSession>, key: KeyView) -> bool {
    exists|i: int| 0 <= i < known.len() && (#[trigger] known[i]).key@ == key
}

proof fn lemma_known(known: Seq<KnownSession>, key: KeyView)
    ensures
        project_of(known, key) is Some <==> known_key(known, key),
    decreases known.len(),
{
    if known.len() > 0 {
        let front = known.drop_last();
        lemma_known(front, key);
        if known_key(front, key) {
            let i = choose|i: int| 0 <= i < front.len() && (#[trigger] front[i]).key@ == key;
            assert(known[i].key@ == key);
        }
        if known_key(known, key) && known.last().key@ != key {
            let i = choose|i: int| 0 <= i < known.len() && (#[trigger] known[i]).key@ == key;
            assert(front[i].key@ == key);
        }
        if known.last().key@ == key {
            assert(known[known.len() - 1].key@ == key);
        }
    }
}

/// The sessions that are known, with their projects, and those that belong to the projects that
/// are asked for. `matches` says of each project whether it is asked for.
pub fn known_sessions(projects: &Vec<UnifiedProject>, matches: &Vec<bool>) -> (r: (
    Vec<KnownSession>,
    Vec<LogicalSessionKey>,
))
    requires
        matches@.len() == projects@.len(),
    ensures
        known_views(r.0@) == all_known(projects@),
        key_views(r.1@) == chosen_keys(projects@, matches@),
{
    let mut known: Vec<KnownSession> = Vec::new();
    let mut chosen: Vec<LogicalSessionKey> = Vec::new();
    let mut i: usize = 0;
    proof {
        assert(projects@.take(0) =~= Seq::empty());
        assert(matches@.take(0) =~= Seq::empty());
        assert(known_views(known@) =~= Seq::empty());
        assert(key_views(chosen@) =~= Seq::empty());
    }
    while i < projects.len()
        invariant
            i <= projects@.len(),
            matches@.len() == projects@.len(),
            known_views(known@) == all_known(projects@.take(i as int)),
            key_views(chosen@) == chosen_keys(projects@.take(i as int), matches@.take(i as int)),
        decreases projects@.len() - i,
    {
        let project = &projects[i];
        let label = project.label();
        let wanted: bool = matches[i];
        let ghost known_before = known_views(known@);
        let ghost chosen_before = key_views(chosen@);
        let ghost own = project_known(*project);
        let ghost keys = project_keys(*project);
        let mut k: usize = 0;
        proof {
            assert(known_before + own.take(0) =~= known_before);
            assert(chosen_before + keys.take(0) =~= chosen_before);
        }
        while k < project.sessions.len()
            invariant
                k <= project.sessions@.len(),
                own == project_known(*project),
                keys == project_keys(*project),
                label@ == project.shown(),
                known_views(known@) == known_before + own.take(k as int),
                key_views(chosen@) == (if wanted {
                    chosen_before + keys.take(k as int)
                } else {
                    chosen_before
                }),
            decreases project.sessions@.len() - k,
        {
            let key = project.sessions[k].key.copy();
            let second = project.sessions[k].key.copy();
            let ghost a = known@;
            let ghost b = chosen@;
            known.push(KnownSession { key, project: label.clone() });
            proof {
                assert(own.take(k + 1) =~= own.take(k as int).push(own[k as int]));
                assert(known_views(known@) =~= known_views(a).push(own[k as int]));
                assert(known_views(known@) =~= known_before + own.take(k + 1));
            }
            if wanted {
                chosen.push(second);
                proof {
                    assert(keys.take(k + 1) =~= keys.take(k as int).push(keys[k as int]));
                    assert(key_views(chosen@) =~= key_views(b).push(keys[k as int]));
                    assert(key_views(chosen@) =~= chosen_before + keys.take(k + 1));
                }
            }
            k = k + 1;
        }
        proof {
            assert(own.take(k as int) =~= own);
            assert(keys.take(k as int) =~= keys);
            let next = projects@.take(i + 1);
            assert(next.drop_last() =~= projects@.take(i as int));
            assert(next.last() == projects@[i as int]);
            assert(matches@.take(i + 1).drop_last() =~= matches@.take(i as int));
            assert(matches@.take(i + 1).last() == matches@[i as int]);
        }
        i = i + 1;
    }
    proof {
        assert(projects@.take(i as int) =~= projects@);
        assert(matches@.take(i as int) =~= matches@);
    }
    (known, chosen)
}

/// The contents of known sessions.
pub open spec fn known_views(known: Seq<KnownSession>) -> Seq<(KeyView, Seq<char>)> {
    known.map_values(|k: KnownSession| (k.key@, k.project@))
}

/// The contents of keys.
pub open spec fn key_views(keys: Seq<LogicalSessionKey>) -> Seq<KeyView> {
    keys.map_values(|k: LogicalSessionKey| k@)
}

/// The sessions of a project, with its name.
pub open spec fn project_known(p: UnifiedProject) -> Seq<(KeyView, Seq<char>)> {
    p.sessions@.map_values(|s: crate::provider::ProjectSession| (s.key@, p.shown()))
}

/// The sessions of a project.
pub open spec fn project_keys(p: UnifiedProject) -> Seq<KeyView> {
    p.sessions@.map_values(|s: crate::provider::ProjectSession| s.key@)
}

/// The sessions of all projects, with their names.
pub open spec fn all_known(projects: Seq<UnifiedProject>) -> Seq<(KeyView, Seq<char>)>
    decreases projects.len(),
{
    if projects.len() == 0 {
        Seq::empty()
    } else {
        all_known(projects.drop_last()) + project_known(projects.last())
    }
}

/// The sessions of the projects that are asked for.
pub open spec fn chosen_keys(projects: Seq<UnifiedProject>, matches: Seq<bool>) -> Seq<KeyView>
    decreases projects.len(),
{
    if projects.len() == 0 {
        Seq::empty()
    } else {
        chosen_keys(projects.drop_last(), matches.drop_last()) + (if matches.last() {
            project_keys(projects.last())
        } else {
            Seq::empty()
        })
    }
}

/// The number of rows of this kind.
pub open spec fn rows_of_kind(rows: Seq<ProviderLineageRow>, kind: Seq<char>) -> int
    decreases rows.len(),
{
    if rows.len() == 0 {
        0
    } else {
        rows_of_kind(rows.drop_last(), kind) + (if rows.last().kind@ == kind {
            1int
        } else {
            0
        })
    }
}

/// Counts the rows of this kind.
pub fn count_kind(rows: &Vec<ProviderLineageRow>, kind: &str) -> (r: usize)
    ensures
        r == rows_of_kind(rows@, kind@),
{
    let mut n: usize = 0;
    let mut i: usize = 0;
    let total: usize = rows.len();
    proof {
        assert(rows@.take(0) =~= Seq::empty());
    }
    while i < total
        invariant
            total == rows@.len(),
            i <= total,
            n <= i,
            n == rows_of_kind(rows@.take(i as int), kind@),
        decreases total - i,
    {
        proof {
            let next = rows@.take(i + 1);
            assert(next.drop_last() =~= rows@.take(i as int));
            assert(next.last() == rows@[i as int]);
        }
        if text::same(rows[i].kind.as_str(), kind) {
            n = n + 1;
        }
        i = i + 1;
    }
    proof {
        assert(rows@.take(i as int) =~= rows@);
    }
    n
}

/// A text as a cell; an empty one where there is none.
pub open spec fn optional_cell(s: Option<String>) -> Seq<char> {
    cell_of(text_or(s, ""@))
}

/// The cells of a row.
pub open spec fn row_cells(r: ProviderLineageRow) -> Seq<Seq<char>> {
    seq![
        cell_of(r.provider@),
        r.kind@,
        cell_of(r.from@),
        cell_of(r.to@),
        optional_cell(r.from_project),
        optional_cell(r.to_project),
        truth(r.dangling_from),
        truth(r.dangling_to),
        optional_cell(r.tool_use_id),
        optional_cell(r.agent_type),
        optional_cell(r.description),
    ]
}

/// What is missing of an edge.
pub open spec fn missing_ends(from: bool, to: bool) -> Seq<char> {
    (if from {
        "from"@
    } else {
        ""@
    }) + (if to {
        if from {
            ", to"@
        } else {
            "to"@
        }
    } else {
        ""@
    })
}

/// The lines of the projects of an edge: one where both ends have the same.
pub open spec fn end_lines(r: ProviderLineageRow) -> Seq<Seq<char>> {
    if text_view(r.from_project) == text_view(r.to_project) {
        given_line("  Project: "@, r.from_project)
    } else {
        given_line("  From project: "@, r.from_project) + given_line(
            "  To project: "@,
            r.to_project,
        )
    }
}

/// The lines of an edge.
pub open spec fn edge_lines(r: ProviderLineageRow) -> Seq<Seq<char>> {
    seq!["["@ + r.kind@ + "] "@ + r.from@ + " -> "@ + r.to@] + end_lines(r) + (
    if r.dangling_from || r.dangling_to {
        seq!["  Missing endpoint inventory: "@ + missing_ends(r.dangling_from, r.dangling_to)]
    } else {
        Seq::empty()
    }) + given_line("  Spawn tool: "@, r.tool_use_id) + given_line(
        "  Agent type: "@,
        r.agent_type,
    ) + given_line("  Description: "@, r.description) + seq![""@]
}

/// What is printed of the edges; for JSON there is a value instead.
pub open spec fn lineage_output(rows: Seq<ProviderLineageRow>, format: OutputFormat) -> Seq<
    Seq<char>,
> {
    match format {
        OutputFormat::Json => Seq::empty(),
        OutputFormat::Tsv => seq![
            "provider\tkind\tfrom\tto\tfrom_project\tto_project\tdangling_from\tdangling_to\ttool_use_id\tagent_type\tdescription"@,
        ] + rows.map_values(|r: ProviderLineageRow| joined(row_cells(r), "\t"@)),
        OutputFormat::Compact => rows.map_values(
            |r: ProviderLineageRow| r.kind@ + "\t"@ + r.from@ + "\t"@ + r.to@,
        ),
        OutputFormat::Text => seq![
            "Session Lineage"@,
            "==============="@,
            "Edges: "@ + decimal(rows.len()),
            ""@,
        ] + (if rows.len() == 0 {
            seq!["No typed lineage edges found."@]
        } else {
            Seq::empty()
        }) + text::spread(rows, |r: ProviderLineageRow| edge_lines(r)),
    }
}

fn say_cell(out: &mut Vec<String>, value: &str)
    ensures
        views(final(out)@) == views(old(out)@).push(cell_of(value@)),
{
    let cell = tsv_cell(value);
    text::say(out, cell.as_str());
}

fn say_optional_cell(out: &mut Vec<String>, value: &Option<String>)
    ensures
        views(final(out)@) == views(old(out)@).push(optional_cell(*value)),
{
    let shown = write_or(value, "");
    say_cell(out, shown.as_str());
}

fn say_truth(out: &mut Vec<String>, b: bool)
    ensures
        views(final(out)@) == views(old(out)@).push(truth(b)),
{
    if b {
        text::say(out, "true");
    } else {
        text::say(out, "false");
    }
}

fn write_cells(r: &ProviderLineageRow) -> (o: String)
    ensures
        o@ == joined(row_cells(*r), "\t"@),
{
    let mut cells: Vec<String> = Vec::new();
    say_cell(&mut cells, r.provider.as_str());
    text::say(&mut cells, r.kind.as_str());
    say_cell(&mut cells, r.from.as_str());
    say_cell(&mut cells, r.to.as_str());
    say_optional_cell(&mut cells, &r.from_project);
    say_optional_cell(&mut cells, &r.to_project);
    say_truth(&mut cells, r.dangling_from);
    say_truth(&mut cells, r.dangling_to);
    say_optional_cell(&mut cells, &r.tool_use_id);
    say_optional_cell(&mut cells, &r.agent_type);
    say_optional_cell(&mut cells, &r.description);
    proof {
        assert(views(cells@) =~= row_cells(*r));
    }
    text::join(&cells, "\t")
}

fn write_compact(r: &ProviderLineageRow) -> (o: String)
    ensures
        o@ == r.kind@ + "\t"@ + r.from@ + "\t"@ + r.to@,
{
    text::cat5(r.kind.as_str(), "\t", r.from.as_str(), "\t", r.to.as_str())
}

fn same_texts(a: &Option<String>, b: &Option<String>) -> (r: bool)
    ensures
        r == (text_view(*a) == text_view(*b)),
{
    match (a, b) {
        (Some(x), Some(y)) => text::same(x.as_str(), y.as_str()),
        (None, None) => true,
        _ => false,
    }
}

fn write_edge(r: &ProviderLineageRow) -> (o: Vec<String>)
    ensures
        views(o@) == edge_lines(*r),
{
    let mut out: Vec<String> = Vec::new();
    let head = text::cat4("[", r.kind.as_str(), "] ", r.from.as_str());
    text::say3(&mut out, head.as_str(), " -> ", r.to.as_str());
    let ghost first = views(out@);
    if same_texts(&r.from_project, &r.to_project) {
        say_given(&mut out, "  Project: ", &r.from_project);
    } else {
        say_given(&mut out, "  From project: ", &r.from_project);
        say_given(&mut out, "  To project: ", &r.to_project);
    }
    proof {
        assert(views(out@) =~= first + end_lines(*r));
    }
    if r.dangling_from || r.dangling_to {
        let from: String = if r.dangling_from {
            "from".to_owned()
        } else {
            "".to_owned()
        };
        let to: String = if r.dangling_to {
            if r.dangling_from {
                ", to".to_owned()
            } else {
                "to".to_owned()
            }
        } else {
            "".to_owned()
        };
        let ends = text::cat2(from.as_str(), to.as_str());
        text::say2(&mut out, "  Missing endpoint inventory: ", ends.as_str());
    }
    say_given(&mut out, "  Spawn tool: ", &r.tool_use_id);
    say_given(&mut out, "  Agent type: ", &r.agent_type);
    say_given(&mut out, "  Description: ", &r.description);
    text::say(&mut out, "");
    proof {
        assert(views(out@) =~= edge_lines(*r));
    }
    out
}

/// What is printed of the edges; for JSON see [`lineage_json`].
pub fn print_lineage(rows: &Vec<ProviderLineageRow>, format: OutputFormat) -> (r: Vec<String>)
    ensures
        views(r@) == lineage_output(rows@, format),
{
    let mut out: Vec<String> = Vec::new();
    proof {
        assert(views(out@) =~= Seq::empty());
    }
    match format {
        OutputFormat::Json => {},
        OutputFormat::Tsv => {
            text::say(
                &mut out,
                "provider\tkind\tfrom\tto\tfrom_project\tto_project\tdangling_from\tdangling_to\ttool_use_id\tagent_type\tdescription",
            );
            let ghost g = |r: ProviderLineageRow| joined(row_cells(r), "\t"@);
            text::say_each(&mut out, rows, write_cells, Ghost(g));
        },
        OutputFormat::Compact => {
            let ghost g = |r: ProviderLineageRow| r.kind@ + "\t"@ + r.from@ + "\t"@ + r.to@;
            text::say_each(&mut out, rows, write_compact, Ghost(g));
        },
        OutputFormat::Text => {
            let count = text::size(rows.len());
            text::say(&mut out, "Session Lineage");
            text::say(&mut out, "===============");
            text::say2(&mut out, "Edges: ", count.as_str());
            text::say(&mut out, "");
            if rows.len() == 0 {
                text::say(&mut out, "No typed lineage edges found.");
            }
            let ghost g = |r: ProviderLineageRow| edge_lines(r);
            text::say_all(&mut out, rows, write_edge, Ghost(g));
        },
    }
    proof {
        assert(views(out@) =~= lineage_output(rows@, format));
    }
    out
}

// ---------------------------------------------------------------------------
// As JSON
// ---------------------------------------------------------------------------

/// The ids of the files of a chain.
pub open spec fn member_ids(c: SessionChain) -> Seq<Seq<char>> {
    c.members@.map_values(|m: ChainMember| m.file_id@)
}

/// The ids of the files of a chain.
pub fn file_ids(c: &SessionChain) -> (r: Vec<String>)
    ensures
        views(r@) == member_ids(*c),
{
    let mut out: Vec<String> = Vec::new();
    proof {
        assert(views(out@) =~= Seq::empty());
    }
    let write = |m: &ChainMember| -> (o: String)
        ensures
            o@ == m.file_id@,
        { m.file_id.clone() };
    let ghost g = |m: ChainMember| m.file_id@;
    text::say_each(&mut out, &c.members, write, Ghost(g));
    proof {
        assert(views(out@) =~= member_ids(*c));
    }
    out
}

/// The fields of a chain.
pub open spec fn chain_fields(c: SessionChain, path: Seq<char>) -> Seq<(Seq<char>, JsonView)> {
    seq![
        ("root_id"@, JsonView::Text(c.root_id@)),
        ("slug"@, optional_text(c.slug)),
        ("members"@, texts_json(member_ids(c))),
        ("length"@, number_json(c.members@.len())),
        ("started"@, time_json(c.started, false)),
        ("project"@, JsonView::Text(path)),
    ]
}

fn chain_json(c: &SessionChain, path: &str) -> (r: Json)
    ensures
        r@ == JsonView::Object(chain_fields(*c, path@)),
{
    let mut fields: Vec<(String, Json)> = Vec::new();
    json::put(&mut fields, "root_id", json::of_text(c.root_id.as_str()));
    json::put(&mut fields, "slug", json::of_option(&c.slug));
    let ids = file_ids(c);
    json::put(&mut fields, "members", json::of_texts(&ids));
    json::put(&mut fields, "length", json::of_size(c.members.len()));
    json::put(&mut fields, "started", json::of_time(c.started, false));
    json::put(&mut fields, "project", json::of_text(path));
    proof {
        assert(fields_view(fields@) =~= chain_fields(*c, path@));
    }
    Json::Object(fields)
}

/// The chains of a project as a JSON list, the latest first.
pub fn chains_json(path: &str, chains: Vec<SessionChain>) -> (r: Json)
    ensures
        r@ == JsonView::Array(
            sorted_by(chains@, begun_later()).map_values(
                |c: SessionChain| JsonView::Object(chain_fields(c, path@)),
            ),
        ),
{
    let sorted = order::sort(chains, is_begun_later, Ghost(begun_later()));
    let write = |c: &SessionChain| -> (o: Json)
        ensures
            o@ == JsonView::Object(chain_fields(*c, path@)),
        { chain_json(c, path) };
    let ghost g = |c: SessionChain| JsonView::Object(chain_fields(c, path@));
    json::of_list(&sorted, write, Ghost(g))
}

/// The fields of an edge.
pub open spec fn lineage_fields(row: ProviderLineageRow) -> Seq<(Seq<char>, JsonView)> {
    seq![
        ("provider"@, JsonView::Text(row.provider@)),
        ("kind"@, JsonView::Text(row.kind@)),
        ("from"@, JsonView::Text(row.from@)),
        ("to"@, JsonView::Text(row.to@)),
        ("from_project"@, optional_text(row.from_project)),
        ("to_project"@, optional_text(row.to_project)),
        ("dangling_from"@, JsonView::Bool(row.dangling_from)),
        ("dangling_to"@, JsonView::Bool(row.dangling_to)),
    ] + given_text("tool_use_id"@, row.tool_use_id) + given_text("agent_type"@, row.agent_type) + given_text("description"@, row.description)
}

fn row_json(row: &ProviderLineageRow) -> (r: Json)
    ensures
        r@ == JsonView::Object(lineage_fields(*row)),
{
    let mut fields: Vec<(String, Json)> = Vec::new();
    let ghost before0 = fields_view(fields@);
    json::put(&mut fields, "provider", json::of_text(row.provider.as_str()));
    json::put(&mut fields, "kind", json::of_text(row.kind.as_str()));
    json::put(&mut fields, "from", json::of_text(row.from.as_str()));
    json::put(&mut fields, "to", json::of_text(row.to.as_str()));
    json::put(&mut fields, "from_project", json::of_option(&row.from_project));
    json::put(&mut fields, "to_project", json::of_option(&row.to_project));
    json::put(&mut fields, "dangling_from", Json::Bool(row.dangling_from));
    json::put(&mut fields, "dangling_to", Json::Bool(row.dangling_to));
    proof {
        assert(fields_view(fields@) =~= before0 + seq![
            ("provider"@, JsonView::Text(row.provider@)),
            ("kind"@, JsonView::Text(row.kind@)),
            ("from"@, JsonView::Text(row.from@)),
            ("to"@, JsonView::Text(row.to@)),
            ("from_project"@, optional_text(row.from_project)),
            ("to_project"@, optional_text(row.to_project)),
            ("dangling_from"@, JsonView::Bool(row.dangling_from)),
            ("dangling_to"@, JsonView::Bool(row.dangling_to)),
        ]);
    }
    json::put_given_text(&mut fields, "tool_use_id", &row.tool_use_id);
    json::put_given_text(&mut fields, "agent_type", &row.agent_type);
    json::put_given_text(&mut fields, "description", &row.description);
    proof {
        assert(fields_view(fields@) =~= lineage_fields(*row));
    }
    Json::Object(fields)
}

/// A field for the number of edges of a kind, left out where there is none.
pub open spec fn kind_count(rows: Seq<ProviderLineageRow>, kind: Seq<char>) -> Seq<
    (Seq<char>, JsonView),
> {
    if rows_of_kind(rows, kind) == 0 {
        Seq::empty()
    } else {
        seq![(kind, number_json(rows_of_kind(rows, kind) as nat))]
    }
}

fn put_kind(fields: &mut Vec<(String, Json)>, rows: &Vec<ProviderLineageRow>, kind: &str)
    ensures
        fields_view(final(fields)@) == fields_view(old(fields)@) + kind_count(rows@, kind@),
{
    let ghost start = fields_view(fields@);
    let count = count_kind(rows, kind);
    if count > 0 {
        json::put(fields, kind, json::of_size(count));
    }
    proof {
        assert(fields_view(fields@) =~= start + kind_count(rows@, kind@));
    }
}

/// The number of edges of each kind, by the names of the kinds.
pub open spec fn kind_counts(rows: Seq<ProviderLineageRow>) -> Seq<(Seq<char>, JsonView)> {
    kind_count(rows, "continuation"@) + kind_count(rows, "fork"@) + kind_count(rows, "spawn"@)
}

fn counts_json(rows: &Vec<ProviderLineageRow>) -> (r: Json)
    ensures
        r@ == JsonView::Object(kind_counts(rows@)),
{
    let mut fields: Vec<(String, Json)> = Vec::new();
    put_kind(&mut fields, rows, "continuation");
    put_kind(&mut fields, rows, "fork");
    put_kind(&mut fields, rows, "spawn");
    proof {
        assert(fields_view(fields@) =~= kind_counts(rows@));
    }
    Json::Object(fields)
}

/// Why there is a warning for a session.
pub open spec fn fallback_reason() -> Seq<char> {
    "project metadata unavailable; lineage retained under a session fallback"@
}

/// The fields of a warning for a session.
pub open spec fn warning_fields(id: String) -> Seq<(Seq<char>, JsonView)> {
    seq![
        ("qualified_id"@, JsonView::Text(id@)),
        ("reason"@, JsonView::Text(fallback_reason())),
    ]
}

fn warning_json(id: &String) -> (r: Json)
    ensures
        r@ == JsonView::Object(warning_fields(*id)),
{
    let mut fields: Vec<(String, Json)> = Vec::new();
    json::put(&mut fields, "qualified_id", json::of_text(id.as_str()));
    json::put(&mut fields, "reason", json::of_text("project metadata unavailable; lineage retained under a session fallback"));
    proof {
        assert(fields_view(fields@) =~= warning_fields(*id));
    }
    Json::Object(fields)
}

/// The fields of all edges.
pub open spec fn lineage_output_fields(
    rows: Seq<ProviderLineageRow>,
    skipped: Seq<SkippedProvider>,
    warned: Seq<String>,
) -> Seq<(Seq<char>, JsonView)> {
    seq![
        (
            "edges"@,
            JsonView::Array(
                rows.map_values(|row: ProviderLineageRow| JsonView::Object(lineage_fields(row))),
            ),
        ),
        ("total_edges"@, number_json(rows.len())),
        ("counts_by_kind"@, JsonView::Object(kind_counts(rows))),
        ("skipped_providers"@, skips_view(skipped)),
        (
            "warnings"@,
            JsonView::Array(
                warned.map_values(|id: String| JsonView::Object(warning_fields(id))),
            ),
        ),
    ]
}

/// All edges as a JSON object. `warned` are the sessions whose project is not known.
pub fn lineage_json(
    rows: &Vec<ProviderLineageRow>,
    skipped: &Vec<SkippedProvider>,
    warned: &Vec<String>,
) -> (r: Json)
    ensures
        r@ == JsonView::Object(lineage_output_fields(rows@, skipped@, warned@)),
{
    let mut fields: Vec<(String, Json)> = Vec::new();
    let ghost g1 = |row: ProviderLineageRow| JsonView::Object(lineage_fields(row));
    let ghost g3 = |id: String| JsonView::Object(warning_fields(id));
    json::put(&mut fields, "edges", json::of_list(rows, row_json, Ghost(g1)));
    json::put(&mut fields, "total_edges", json::of_size(rows.len()));
    json::put(&mut fields, "counts_by_kind", counts_json(rows));
    json::put(&mut fields, "skipped_providers", skips_json(skipped));
    json::put(&mut fields, "warnings", json::of_list(warned, warning_json, Ghost(g3)));
    proof {
        assert(fields_view(fields@) =~= lineage_output_fields(rows@, skipped@, warned@));
    }
    Json::Object(fields)
}

/// The warnings for a reader.
pub open spec fn lineage_warnings(skipped: Seq<SkippedProvider>, warned: Seq<String>) -> Seq<
    Seq<char>,
> {
    skipped.map_values(
        |skip: SkippedProvider| "Warning: provider '"@ + skip.provider@ + "' was skipped: "@
            + skip.reason@,
    ) + warned.map_values(|id: String| "Warning: "@ + id@ + ": "@ + fallback_reason())
}

/// The warnings for a reader.
pub fn print_lineage_warnings(skipped: &Vec<SkippedProvider>, warned: &Vec<String>) -> (r: Vec<
    String,
>)
    ensures
        views(r@) == lineage_warnings(skipped@, warned@),
{
    let mut out: Vec<String> = Vec::new();
    proof {
        assert(views(out@) =~= Seq::empty());
    }
    let write = |skip: &SkippedProvider| -> (o: String)
        ensures
            o@ == "Warning: provider '"@ + skip.provider@ + "' was skipped: "@ + skip.reason@,
        {
            text::cat4(
                "Warning: provider '",
                skip.provider.as_str(),
                "' was skipped: ",
                skip.reason.as_str(),
            )
        };
    let ghost g1 = |skip: SkippedProvider| "Warning: provider '"@ + skip.provider@
        + "' was skipped: "@ + skip.reason@;
    text::say_each(&mut out, skipped, write, Ghost(g1));
    let warn = |id: &String| -> (o: String)
        ensures
            o@ == "Warning: "@ + id@ + ": "@ + fallback_reason(),
        {
            text::cat4(
                "Warning: ",
                id.as_str(),
                ": ",
                "project metadata unavailable; lineage retained under a session fallback",
            )
        };
    let ghost g2 = |id: String| "Warning: "@ + id@ + ": "@ + fallback_reason();
    text::say_each(&mut out, warned, warn, Ghost(g2));
    proof {
        assert(views(out@) =~= lineage_warnings(skipped@, warned@));
    }
    out
}

// ---------------------------------------------------------------------------
// What rows and chains tell
// ---------------------------------------------------------------------------

/// Chains are listed by when they began, the latest first, and those of which that is not known
/// last; none is left out.
pub proof fn latest_chains_come_first(chains: Seq<SessionChain>)
    ensures
        ({
            let r = sorted_by(chains, begun_later());
            &&& r.len() == chains.len()
            &&& forall|c: SessionChain| #[trigger] r.contains(c) <==> chains.contains(c)
            &&& forall|i: int, j: int|
                0 <= i < j < r.len() ==> order::no_later(
                    (#[trigger] r[j]).started,
                    (#[trigger] r[i]).started,
                )
        }),
{
    let lt = begun_later();
    let r = sorted_by(chains, lt);
    order::sorting_permutes(chains, lt);
    order::sorting_orders(chains, lt);
    assert forall|c: SessionChain| #[trigger] r.contains(c) <==> chains.contains(c) by {
        order::lemma_sorted_contains(chains, lt, c);
    }
    assert forall|i: int, j: int| 0 <= i < j < r.len() implies order::no_later(
        (#[trigger] r[j]).started,
        (#[trigger] r[i]).started,
    ) by {
        assert(!lt(r[j], r[i]));
    }
}

/// The project of a session is the one under which it was named last, and it has none where its key
/// is nowhere named.
pub proof fn last_named_project_counts(known: Seq<KnownSession>, key: KeyView)
    ensures
        project_of(known, key) matches Some(p) ==> exists|i: int|
            0 <= i < known.len() && (#[trigger] known[i]).key@ == key && known[i].project@ == p
                && forall|j: int| i < j < known.len() ==> (#[trigger] known[j]).key@ != key,
        project_of(known, key) is None ==> forall|i: int|
            0 <= i < known.len() ==> (#[trigger] known[i]).key@ != key,
    decreases known.len(),
{
    if known.len() > 0 {
        let front = known.drop_last();
        assert(known[known.len() - 1] == known.last());
        if known.last().key@ != key {
            last_named_project_counts(front, key);
            match project_of(known, key) {
                Some(p) => {
                    let i = choose|i: int|
                        0 <= i < front.len() && (#[trigger] front[i]).key@ == key
                            && front[i].project@ == p && forall|j: int|
                            i < j < front.len() ==> (#[trigger] front[j]).key@ != key;
                    assert(known[i] == front[i]);
                    assert forall|j: int| i < j < known.len() implies (#[trigger] known[j]).key@
                        != key by {
                        if j < front.len() {
                            assert(front[j] == known[j]);
                        }
                    }
                },
                None => {
                    assert forall|i: int| 0 <= i < known.len() implies (#[trigger] known[i]).key@
                        != key by {
                        if i < front.len() {
                            assert(front[i] == known[i]);
                        }
                    }
                },
            }
        }
    }
}

/// There is one row for each edge that begins or ends at one of the sessions that are looked at, or
/// for every edge where all are. The row says where the edge begins and ends, of what kind it is,
/// and, of a spawn alone, by which call.
pub proof fn rows_tell_of_edges(
    edges: Seq<LineageEdge>,
    known: Seq<KnownSession>,
    members: Option<Vec<LogicalSessionKey>>,
    edge: LineageEdge,
)
    ensures
        lineage_rows(edges, known, members).len() == edges.filter(touches(members)).len(),
        edges.filter(touches(members)).contains(edge) <==> edges.contains(edge) && (
        members matches Some(keys) ==> exists|i: int|
            0 <= i < keys@.len() && ((#[trigger] keys@[i])@ == edge.from@ || keys@[i]@
                == edge.to@)),
        edges.filter(touches(members)).contains(edge) ==> lineage_rows(
            edges,
            known,
            members,
        ).contains(row_of(edge, known)),
        row_of(edge, known).from == edge.from.qualified@,
        row_of(edge, known).to == edge.to.qualified@,
        row_of(edge, known).provider == edge.from.provider@,
        row_of(edge, known).from_project == project_of(known, edge.from@),
        row_of(edge, known).to_project == project_of(known, edge.to@),
        edge.kind is Continuation ==> row_of(edge, known).kind == "continuation"@,
        edge.kind is Fork ==> row_of(edge, known).kind == "fork"@,
        edge.kind is Spawn ==> row_of(edge, known).kind == "spawn"@,
        edge.kind !is Spawn ==> row_of(edge, known).tool_use_id is None && row_of(
            edge,
            known,
        ).agent_type is None && row_of(edge, known).description is None,
        edge.kind matches LineageEdgeKind::Spawn { tool_use_id, agent_type, description }
            ==> row_of(edge, known).tool_use_id == text_view(tool_use_id) && row_of(
            edge,
            known,
        ).agent_type == text_view(agent_type) && row_of(edge, known).description == text_view(
            description,
        ),
{
    order::filtering_is_exact(edges, touches(members));
    let kept = edges.filter(touches(members));
    assert(kept.contains(edge) <==> edges.contains(edge) && touches(members)(edge));
    match members {
        Some(keys) => {
            if holds_key(keys@, edge.from@) {
                let i = choose|i: int| 0 <= i < keys@.len() && (#[trigger] keys@[i])@ == edge.from@;
                assert(keys@[i]@ == edge.from@);
            }
            if holds_key(keys@, edge.to@) {
                let i = choose|i: int| 0 <= i < keys@.len() && (#[trigger] keys@[i])@ == edge.to@;
                assert(keys@[i]@ == edge.to@);
            }
        },
        None => {},
    }
    if kept.contains(edge) {
        let k = choose|k: int| 0 <= k < kept.len() && kept[k] == edge;
        assert(lineage_rows(edges, known, members)[k] == row_of(edge, known));
    }
}

/// The sessions of the projects that were chosen are looked at, and those of no other project.
pub proof fn chosen_projects_give_their_sessions(
    projects: Seq<UnifiedProject>,
    matches: Seq<bool>,
    key: KeyView,
)
    requires
        matches.len() == projects.len(),
    ensures
        chosen_keys(projects, matches).contains(key) <==> exists|i: int, j: int|
            #![trigger projects[i].sessions@[j]]
            0 <= i < projects.len() && matches[i] && 0 <= j < projects[i].sessions@.len()
                && projects[i].sessions@[j].key@ == key,
    decreases projects.len(),
{
    if projects.len() > 0 {
        let (front, fits) = (projects.drop_last(), matches.drop_last());
        let last = projects.last();
        let n = projects.len() - 1;
        let before = chosen_keys(front, fits);
        let all = chosen_keys(projects, matches);
        chosen_projects_give_their_sessions(front, fits, key);
        if all.contains(key) {
            let k = choose|k: int| 0 <= k < all.len() && all[k] == key;
            if k < before.len() {
                assert(before[k] == key);
                assert(before.contains(key));
                let (i, j) = choose|i: int, j: int|
                    #![trigger front[i].sessions@[j]]
                    0 <= i < front.len() && fits[i] && 0 <= j < front[i].sessions@.len()
                        && front[i].sessions@[j].key@ == key;
                assert(projects[i].sessions@[j].key@ == key);
            } else {
                assert(projects[n].sessions@[k - before.len()].key@ == key);
            }
        }
        if exists|i: int, j: int|
            #![trigger projects[i].sessions@[j]]
            0 <= i < projects.len() && matches[i] && 0 <= j < projects[i].sessions@.len()
                && projects[i].sessions@[j].key@ == key {
            let (i, j) = choose|i: int, j: int|
                #![trigger projects[i].sessions@[j]]
                0 <= i < projects.len() && matches[i] && 0 <= j < projects[i].sessions@.len()
                    && projects[i].sessions@[j].key@ == key;
            if i < n {
                assert(front[i].sessions@[j].key@ == key && fits[i]);
                assert(before.contains(key));
                let k = choose|k: int| 0 <= k < before.len() && before[k] == key;
                assert(all[k] == key);
            } else {
                assert(project_keys(last)[j] == key);
                assert(all[before.len() + j] == key);
            }
        }
    }
}

/// The rows of a kind are counted each once.
pub proof fn kinds_are_counted(rows: Seq<ProviderLineageRow>, kind: Seq<char>)
    ensures
        rows_of_kind(rows, kind) == rows.filter(|r: ProviderLineageRow| r.kind@ == kind).len(),
    decreases rows.len(),
{
    broadcast use Seq::lemma_filter_push;

    if rows.len() > 0 {
        kinds_are_counted(rows.drop_last(), kind);
        assert(rows =~= rows.drop_last().push(rows.last()));
    }
}

} // verus!
