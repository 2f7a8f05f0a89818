//! The arguments of the command line, as plain values.

use vstd::prelude::*;

use crate::text::{chars_of, concat, opt_view, owned, str_eq};

verus! {

/// Filters for the job queries. Each text filter keeps the rows whose field holds
/// the value, ignoring ASCII case; `stages` keeps the jobs with any stages (`0`)
/// or with exactly that many.
#[derive(Debug)]
pub struct QueryArgs {
    /// Filter by company name.
    pub company: Option<String>,
    /// Filter by link.
    pub link: Option<String>,
    /// Filter by notes.
    pub notes: Option<String>,
    /// Filter by sprint name; without it only the current sprint is listed.
    pub sprint: Option<String>,
    /// Filter by application status.
    pub status: Option<String>,
    /// Filter by job title.
    pub title: Option<String>,
    /// Filter by number of interview stages.
    pub stages: Option<i32>,
}

impl Default for QueryArgs {
    fn default() -> (r: QueryArgs)
        ensures
            r.company is None,
            r.link is None,
            r.notes is None,
            r.sprint is None,
            r.status is None,
            r.title is None,
            r.stages is None,
    {
        QueryArgs {
            company: None,
            link: None,
            notes: None,
            sprint: None,
            status: None,
            title: None,
            stages: None,
        }
    }
}

/// Where and how to export a sprint.
#[derive(Debug)]
pub struct ExportArgs {
    /// The directory to write to; the current one when absent.
    pub directory: Option<String>,
    /// The file name; ".xlsx" is added when missing.
    pub filename: Option<String>,
    /// The sprint to export; the current one when absent.
    pub sprint: Option<String>,
}


/// The `config` subcommands.
#[derive(Debug, Clone, Copy, PartialEq, Eq, Structural)]
pub enum ConfigOption {
    /// Open the configuration file in an editor.
    Edit,
    /// Show the configuration.
    Show,
}

/// The `sprint` subcommands.
#[derive(Debug)]
pub enum SprintOption {
    /// Show the current sprint.
    Current,
    /// Start a new sprint, named by date unless a name is given.
    New {
        /// The name of the new sprint.
        name: Option<String>,
    },
    /// Show all sprints.
    ShowAll,
    /// Pick the current sprint.
    Pick,
}

/// The `stage` subcommands.
#[derive(Debug)]
pub enum StageOption {
    /// Add an interview stage to a job.
    Add(QueryArgs),
    /// Delete an interview stage.
    Delete(QueryArgs),
    /// Show a job's stages as a tree.
    Tree(QueryArgs),
    /// Change an interview stage.
    Update(QueryArgs),
}

/// The commands of the program.
#[derive(Debug)]
pub enum Command {
    /// Track a new job application.
    Add {
        /// The company applied to.
        company: String,
    },
    /// Show the banner.
    Banner,
    /// Show or edit the configuration.
    Config(ConfigOption),
    /// Delete a job application.
    Delete(QueryArgs),
    /// Export a sprint to a spreadsheet.
    Export(ExportArgs),
    /// Show counts and percentages.
    Insights,
    /// List job applications.
    List(QueryArgs),
    /// Open a job application's link.
    Open(QueryArgs),
    /// Manage sprints.
    Sprint(SprintOption),
    /// Manage interview stages.
    Stage(StageOption),
    /// Change a job application.
    Update(QueryArgs),
}

/// A parsed command line.
#[derive(Debug)]
pub struct Cli {
    /// The command to run.
    pub command: Command,
}

/// The filters of a query, as character sequences.
pub struct QueryView {
    pub company: Option<Seq<char>>,
    pub link: Option<Seq<char>>,
    pub notes: Option<Seq<char>>,
    pub sprint: Option<Seq<char>>,
    pub status: Option<Seq<char>>,
    pub title: Option<Seq<char>>,
    pub stages: Option<i32>,
}

/// The export arguments, as character sequences.
pub struct ExportView {
    pub directory: Option<Seq<char>>,
    pub filename: Option<Seq<char>>,
    pub sprint: Option<Seq<char>>,
}

/// A command, with its arguments as character sequences.
pub enum CommandView {
    Add(Seq<char>),
    Banner,
    Config(ConfigOption),
    Delete(QueryView),
    Export(ExportView),
    Insights,
    List(QueryView),
    Open(QueryView),
    SprintCurrent,
    SprintNew(Option<Seq<char>>),
    SprintShowAll,
    SprintPick,
    StageAdd(QueryView),
    StageDelete(QueryView),
    StageTree(QueryView),
    StageUpdate(QueryView),
    Update(QueryView),
}

pub open spec fn query_view(q: QueryArgs) -> QueryView {
    QueryView {
        company: opt_view(q.company),
        link: opt_view(q.link),
        notes: opt_view(q.notes),
        sprint: opt_view(q.sprint),
        status: opt_view(q.status),
        title: opt_view(q.title),
        stages: q.stages,
    }
}

pub open spec fn export_view(e: ExportArgs) -> ExportView {
    ExportView { directory: opt_view(e.directory), filename: opt_view(e.filename), sprint: opt_view(e.sprint) }
}

pub open spec fn command_view(c: Command) -> CommandView {
    match c {
        Command::Add { company } => CommandView::Add(company@),
        Command::Banner => CommandView::Banner,
        Command::Config(o) => CommandView::Config(o),
        Command::Delete(q) => CommandView::Delete(query_view(q)),
        Command::Export(e) => CommandView::Export(export_view(e)),
        Command::Insights => CommandView::Insights,
        Command::List(q) => CommandView::List(query_view(q)),
        Command::Open(q) => CommandView::Open(query_view(q)),
        Command::Sprint(SprintOption::Current) => CommandView::SprintCurrent,
        Command::Sprint(SprintOption::New { name }) => CommandView::SprintNew(opt_view(name)),
        Command::Sprint(SprintOption::ShowAll) => CommandView::SprintShowAll,
        Command::Sprint(SprintOption::Pick) => CommandView::SprintPick,
        Command::Stage(StageOption::Add(q)) => CommandView::StageAdd(query_view(q)),
        Command::Stage(StageOption::Delete(q)) => CommandView::StageDelete(query_view(q)),
        Command::Stage(StageOption::Tree(q)) => CommandView::StageTree(query_view(q)),
        Command::Stage(StageOption::Update(q)) => CommandView::StageUpdate(query_view(q)),
        Command::Update(q) => CommandView::Update(query_view(q)),
    }
}

/// A token that stands as an option's value: anything but a flag (`-x`, `--x`).
pub open spec fn is_value(t: Seq<char>) -> bool {
    !(t.len() > 1 && t[0] == '-')
}

/// A non-empty run of decimal digits.
pub open spec fn is_digits(t: Seq<char>) -> bool {
    t.len() > 0 && forall|i: int| 0 <= i < t.len() ==> '0' <= #[trigger] t[i] <= '9'
}

/// The number that a run of decimal digits stands for.
pub open spec fn digits_value(t: Seq<char>) -> int
    decreases t.len(),
{
    if t.len() == 0 {
        0
    } else {
        digits_value(t.drop_last()) * 10 + (t.last() as int - '0' as int)
    }
}

/// Which query option a token names: 0 company, 1 link, 2 notes, 3 sprint,
/// 4 status, 5 title, 6 stages, -1 none.
pub open spec fn query_option(t: Seq<char>) -> int {
    if t == "-c"@ || t == "--company"@ {
        0
    } else if t == "-l"@ || t == "--link"@ {
        1
    } else if t == "-n"@ || t == "--notes"@ {
        2
    } else if t == "--sprint"@ {
        3
    } else if t == "-s"@ || t == "--status"@ {
        4
    } else if t == "-t"@ || t == "--title"@ {
        5
    } else if t == "--stages"@ {
        6
    } else {
        -1
    }
}

pub open spec fn text_field(q: QueryView, k: int) -> Option<Seq<char>> {
    if k == 0 {
        q.company
    } else if k == 1 {
        q.link
    } else if k == 2 {
        q.notes
    } else if k == 3 {
        q.sprint
    } else if k == 4 {
        q.status
    } else {
        q.title
    }
}

pub open spec fn with_text(q: QueryView, k: int, v: Seq<char>) -> QueryView {
    QueryView {
        company: if k == 0 { Some(v) } else { q.company },
        link: if k == 1 { Some(v) } else { q.link },
        notes: if k == 2 { Some(v) } else { q.notes },
        sprint: if k == 3 { Some(v) } else { q.sprint },
        status: if k == 4 { Some(v) } else { q.status },
        title: if k == 5 { Some(v) } else { q.title },
        stages: q.stages,
    }
}

pub open spec fn with_stages(q: QueryView, n: i32) -> QueryView {
    QueryView {
        company: q.company,
        link: q.link,
        notes: q.notes,
        sprint: q.sprint,
        status: q.status,
        title: q.title,
        stages: Some(n),
    }
}

pub open spec fn empty_query() -> QueryView {
    QueryView { company: None, link: None, notes: None, sprint: None, status: None, title: None, stages: None }
}

/// The query options in `toks` from position `i` on, added to `acc`. Each option
/// takes the next token as its value and may appear once; `--stages` takes a
/// number when one follows, else stands for 0.
pub open spec fn parse_query(toks: Seq<Seq<char>>, i: int, acc: QueryView) -> Option<QueryView>
    decreases toks.len() - i,
{
    if i < 0 || i >= toks.len() {
        Some(acc)
    } else {
        let k = query_option(toks[i]);
        if k == 6 {
            if acc.stages is Some {
                None
            } else if i + 1 < toks.len() && is_value(toks[i + 1]) {
                if is_digits(toks[i + 1]) && digits_value(toks[i + 1]) <= i32::MAX {
                    parse_query(toks, i + 2, with_stages(acc, digits_value(toks[i + 1]) as i32))
                } else {
                    None
                }
            } else {
                parse_query(toks, i + 1, with_stages(acc, 0))
            }
        } else if 0 <= k < 6 {
            if text_field(acc, k) is Some || i + 1 >= toks.len() || !is_value(toks[i + 1]) {
                None
            } else {
                parse_query(toks, i + 2, with_text(acc, k, toks[i + 1]))
            }
        } else {
            None
        }
    }
}

/// Which export option a token names: 0 directory, 1 filename, 2 sprint, -1 none.
pub open spec fn export_option(t: Seq<char>) -> int {
    if t == "-d"@ || t == "--directory"@ {
        0
    } else if t == "-f"@ || t == "--filename"@ {
        1
    } else if t == "-s"@ || t == "--sprint"@ {
        2
    } else {
        -1
    }
}

pub open spec fn export_field(e: ExportView, k: int) -> Option<Seq<char>> {
    if k == 0 {
        e.directory
    } else if k == 1 {
        e.filename
    } else {
        e.sprint
    }
}

pub open spec fn with_export(e: ExportView, k: int, v: Seq<char>) -> ExportView {
    ExportView {
        directory: if k == 0 { Some(v) } else { e.directory },
        filename: if k == 1 { Some(v) } else { e.filename },
        sprint: if k == 2 { Some(v) } else { e.sprint },
    }
}

/// The export options in `toks` from position `i` on, added to `acc`.
pub open spec fn parse_export(toks: Seq<Seq<char>>, i: int, acc: ExportView) -> Option<ExportView>
    decreases toks.len() - i,
{
    if i < 0 || i >= toks.len() {
        Some(acc)
    } else {
        let k = export_option(toks[i]);
        if 0 <= k < 3 && export_field(acc, k) is None && i + 1 < toks.len() && is_value(toks[i + 1]) {
            parse_export(toks, i + 2, with_export(acc, k, toks[i + 1]))
        } else {
            None
        }
    }
}

/// The command that a command line names; the first token is the program's name.
pub open spec fn parse_command(toks: Seq<Seq<char>>) -> Option<CommandView> {
    if toks.len() < 2 {
        None
    } else {
        let sub = toks[1];
        let rest_len = toks.len() - 2;
        if sub == "add"@ {
            if rest_len == 1 && is_value(toks[2]) {
                Some(CommandView::Add(toks[2]))
            } else {
                None
            }
        } else if sub == "banner"@ {
            if rest_len == 0 { Some(CommandView::Banner) } else { None }
        } else if sub == "insights"@ {
            if rest_len == 0 { Some(CommandView::Insights) } else { None }
        } else if sub == "config"@ {
            if rest_len == 1 && toks[2] == "edit"@ {
                Some(CommandView::Config(ConfigOption::Edit))
            } else if rest_len == 1 && toks[2] == "show"@ {
                Some(CommandView::Config(ConfigOption::Show))
            } else {
                None
            }
        } else if sub == "delete"@ || sub == "list"@ || sub == "open"@ || sub == "update"@ {
            match parse_query(toks, 2, empty_query()) {
                Some(q) => Some(
                    if sub == "delete"@ {
                        CommandView::Delete(q)
                    } else if sub == "list"@ {
                        CommandView::List(q)
                    } else if sub == "open"@ {
                        CommandView::Open(q)
                    } else {
                        CommandView::Update(q)
                    },
                ),
                None => None,
            }
        } else if sub == "export"@ {
            match parse_export(toks, 2, ExportView { directory: None, filename: None, sprint: None }) {
                Some(e) => Some(CommandView::Export(e)),
                None => None,
            }
        } else if sub == "sprint"@ {
            if rest_len == 1 && toks[2] == "current"@ {
                Some(CommandView::SprintCurrent)
            } else if rest_len == 1 && toks[2] == "show-all"@ {
                Some(CommandView::SprintShowAll)
            } else if rest_len == 1 && toks[2] == "set"@ {
                Some(CommandView::SprintPick)
            } else if rest_len == 1 && toks[2] == "new"@ {
                Some(CommandView::SprintNew(None))
            } else if rest_len == 3 && toks[2] == "new"@ && (toks[3] == "-n"@ || toks[3] == "--name"@)
                && is_value(toks[4]) {
                Some(CommandView::SprintNew(Some(toks[4])))
            } else {
                None
            }
        } else if sub == "stage"@ {
            if rest_len >= 1 && (toks[2] == "add"@ || toks[2] == "delete"@ || toks[2] == "tree"@
                || toks[2] == "update"@) {
                match parse_query(toks, 3, empty_query()) {
                    Some(q) => Some(
                        if toks[2] == "add"@ {
                            CommandView::StageAdd(q)
                        } else if toks[2] == "delete"@ {
                            CommandView::StageDelete(q)
                        } else if toks[2] == "tree"@ {
                            CommandView::StageTree(q)
                        } else {
                            CommandView::StageUpdate(q)
                        },
                    ),
                    None => None,
                }
            } else {
                None
            }
        } else {
            None
        }
    }
}

/// The views of the tokens of a command line.
pub open spec fn token_views(args: Seq<&str>) -> Seq<Seq<char>> {
    args.map_values(|t: &str| t@)
}

fn is_value_exec(t: &str) -> (r: bool)
    ensures
        r == is_value(t@),
{
    let c = chars_of(t);
    !(c.len() > 1 && c[0] == '-')
}

fn digits_exec(t: &str) -> (r: Option<i32>)
    ensures
        r == (if is_digits(t@) && digits_value(t@) <= i32::MAX {
            Some(digits_value(t@) as i32)
        } else {
            None::<i32>
        }),
{
    let c = chars_of(t);
    if c.len() == 0 {
        return None;
    }
    let mut v: i64 = 0;
    let mut i: usize = 0;
    while i < c.len()
        invariant
            c@ == t@,
            i <= c.len(),
            v == digits_value(t@.subrange(0, i as int)),
            0 <= v <= i32::MAX,
            forall|k: int| 0 <= k < i ==> '0' <= #[trigger] t@[k] <= '9',
        decreases c.len() - i,
    {
        assert(t@.subrange(0, i + 1).drop_last() =~= t@.subrange(0, i as int));
        let ch = c[i];
        if !('0' <= ch && ch <= '9') {
            return None;
        }
        v = v * 10 + (ch as u32 - '0' as u32) as i64;
        i += 1;
        if v > i32::MAX as i64 {
            proof {
                lemma_digits_grow(t@, i as int);
            }
            return None;
        }
    }
    assert(t@.subrange(0, i as int) =~= t@);
    Some(v as i32)
}

proof fn lemma_digits_grow(t: Seq<char>, i: int)
    requires
        0 <= i <= t.len(),
        forall|k: int| 0 <= k < t.len() && is_digits(t) ==> '0' <= #[trigger] t[k] <= '9',
    ensures
        is_digits(t) ==> digits_value(t) >= digits_value(t.subrange(0, i)),
    decreases t.len() - i,
{
    if is_digits(t) && i < t.len() {
        lemma_digits_grow(t, i + 1);
        assert(t.subrange(0, i + 1).drop_last() =~= t.subrange(0, i));
        lemma_digits_nonneg(t.subrange(0, i));
    } else if i == t.len() {
        assert(t.subrange(0, i) =~= t);
    }
}

proof fn lemma_digits_nonneg(t: Seq<char>)
    requires
        forall|k: int| 0 <= k < t.len() ==> '0' <= #[trigger] t[k] <= '9',
    ensures
        digits_value(t) >= 0,
    decreases t.len(),
{
    if t.len() > 0 {
        lemma_digits_nonneg(t.drop_last());
        assert(t.last() == t[t.len() - 1]);
    }
}

fn query_option_exec(t: &str) -> (r: i32)
    ensures
        r == query_option(t@),
{
    if str_eq(t, "-c") || str_eq(t, "--company") {
        0
    } else if str_eq(t, "-l") || str_eq(t, "--link") {
        1
    } else if str_eq(t, "-n") || str_eq(t, "--notes") {
        2
    } else if str_eq(t, "--sprint") {
        3
    } else if str_eq(t, "-s") || str_eq(t, "--status") {
        4
    } else if str_eq(t, "-t") || str_eq(t, "--title") {
        5
    } else if str_eq(t, "--stages") {
        6
    } else {
        -1
    }
}

fn text_field_set(q: &QueryArgs, k: i32) -> (r: bool)
    requires
        0 <= k < 6,
    ensures
        r == text_field(query_view(*q), k as int) is Some,
{
    if k == 0 {
        q.company.is_some()
    } else if k == 1 {
        q.link.is_some()
    } else if k == 2 {
        q.notes.is_some()
    } else if k == 3 {
        q.sprint.is_some()
    } else if k == 4 {
        q.status.is_some()
    } else {
        q.title.is_some()
    }
}

fn set_text_field(q: &mut QueryArgs, k: i32, v: &str)
    requires
        0 <= k < 6,
    ensures
        query_view(*final(q)) == with_text(query_view(*old(q)), k as int, v@),
{
    let s = Some(owned(v));
    if k == 0 {
        q.company = s;
    } else if k == 1 {
        q.link = s;
    } else if k == 2 {
        q.notes = s;
    } else if k == 3 {
        q.sprint = s;
    } else if k == 4 {
        q.status = s;
    } else {
        q.title = s;
    }
}

/// Reads the query options of `args` from position `start` on.
pub fn parse_query_args(args: &[&str], start: usize) -> (r: Option<QueryArgs>)
    ensures
        match parse_query(token_views(args@), start as int, empty_query()) {
            Some(v) => r matches Some(q) && query_view(q) == v,
            None => r is None,
        },
{
    let ghost toks = token_views(args@);
    let mut acc = QueryArgs::default();
    assert(query_view(acc) == empty_query());
    let mut i: usize = start;
    while i < args.len()
        invariant
            toks == token_views(args@),
            toks.len() == args@.len(),
            parse_query(toks, start as int, empty_query()) == parse_query(toks, i as int, query_view(acc)),
        decreases args.len() - i,
    {
        let t = args[i];
        assert(toks[i as int] == t@);
        let k = query_option_exec(t);
        if k == 6 {
            if acc.stages.is_some() {
                return None;
            }
            if i + 1 < args.len() && is_value_exec(args[i + 1]) {
                assert(toks[i + 1] == args@[i + 1]@);
                match digits_exec(args[i + 1]) {
                    Some(n) => {
                        acc.stages = Some(n);
                        i = i + 2;
                    },
                    None => {
                        return None;
                    },
                }
            } else {
                proof {
                    if i + 1 < args.len() {
                        assert(toks[i + 1] == args@[i + 1]@);
                    }
                }
                acc.stages = Some(0);
                i = i + 1;
            }
        } else if 0 <= k && k < 6 {
            if text_field_set(&acc, k) || i + 1 >= args.len() {
                return None;
            }
            assert(toks[i + 1] == args@[i + 1]@);
            if !is_value_exec(args[i + 1]) {
                return None;
            }
            set_text_field(&mut acc, k, args[i + 1]);
            i = i + 2;
        } else {
            return None;
        }
    }
    Some(acc)
}

fn export_option_exec(t: &str) -> (r: i32)
    ensures
        r == export_option(t@),
{
    if str_eq(t, "-d") || str_eq(t, "--directory") {
        0
    } else if str_eq(t, "-f") || str_eq(t, "--filename") {
        1
    } else if str_eq(t, "-s") || str_eq(t, "--sprint") {
        2
    } else {
        -1
    }
}

/// Reads the export options of `args` from position `start` on.
pub fn parse_export_args(args: &[&str], start: usize) -> (r: Option<ExportArgs>)
    ensures
        match parse_export(token_views(args@), start as int, ExportView { directory: None, filename: None, sprint: None }) {
            Some(v) => r matches Some(e) && export_view(e) == v,
            None => r is None,
        },
{
    let ghost toks = token_views(args@);
    let mut acc = ExportArgs { directory: None, filename: None, sprint: None };
    let mut i: usize = start;
    while i < args.len()
        invariant
            toks == token_views(args@),
            toks.len() == args@.len(),
            parse_export(toks, start as int, ExportView { directory: None, filename: None, sprint: None })
                == parse_export(toks, i as int, export_view(acc)),
        decreases args.len() - i,
    {
        let t = args[i];
        assert(toks[i as int] == t@);
        let k = export_option_exec(t);
        if k < 0 || i + 1 >= args.len() {
            return None;
        }
        assert(toks[i + 1] == args@[i + 1]@);
        if !is_value_exec(args[i + 1]) {
            return None;
        }
        let v = Some(owned(args[i + 1]));
        if k == 0 {
            if acc.directory.is_some() {
                return None;
            }
            acc.directory = v;
        } else if k == 1 {
            if acc.filename.is_some() {
                return None;
            }
            acc.filename = v;
        } else {
            if acc.sprint.is_some() {
                return None;
            }
            acc.sprint = v;
        }
        i = i + 2;
    }
    Some(acc)
}

impl Cli {
    /// Parses a command line; the first token is the program's name.
    pub fn try_parse_from(args: &[&str]) -> (r: Result<Cli, String>)
        ensures
            match parse_command(token_views(args@)) {
                Some(c) => r matches Ok(cli) && command_view(cli.command) == c,
                None => r is Err,
            },
    {
        let ghost toks = token_views(args@);
        if args.len() < 2 {
            return Err(owned("a subcommand is required"));
        }
        let sub = args[1];
        assert(toks[1] == sub@);
        proof {
            if args.len() > 2 {
                assert(toks[2] == args@[2]@);
            }
            if args.len() > 3 {
                assert(toks[3] == args@[3]@);
            }
            if args.len() > 4 {
                assert(toks[4] == args@[4]@);
            }
        }
        let rest = args.len() - 2;
        let bad = Err(concat("unexpected arguments for ", sub));
        if str_eq(sub, "add") {
            if rest == 1 && is_value_exec(args[2]) {
                Ok(Cli { command: Command::Add { company: owned(args[2]) } })
            } else {
                bad
            }
        } else if str_eq(sub, "banner") {
            if rest == 0 { Ok(Cli { command: Command::Banner }) } else { bad }
        } else if str_eq(sub, "insights") {
            if rest == 0 { Ok(Cli { command: Command::Insights }) } else { bad }
        } else if str_eq(sub, "config") {
            if rest == 1 && str_eq(args[2], "edit") {
                Ok(Cli { command: Command::Config(ConfigOption::Edit) })
            } else if rest == 1 && str_eq(args[2], "show") {
                Ok(Cli { command: Command::Config(ConfigOption::Show) })
            } else {
                bad
            }
        } else if str_eq(sub, "delete") || str_eq(sub, "list") || str_eq(sub, "open") || str_eq(sub, "update") {
            match parse_query_args(args, 2) {
                Some(q) => {
                    let command = if str_eq(sub, "delete") {
                        Command::Delete(q)
                    } else if str_eq(sub, "list") {
                        Command::List(q)
                    } else if str_eq(sub, "open") {
                        Command::Open(q)
                    } else {
                        Command::Update(q)
                    };
                    Ok(Cli { command })
                },
                None => bad,
            }
        } else if str_eq(sub, "export") {
            match parse_export_args(args, 2) {
                Some(e) => Ok(Cli { command: Command::Export(e) }),
                None => bad,
            }
        } else if str_eq(sub, "sprint") {
            if rest == 1 && str_eq(args[2], "current") {
                Ok(Cli { command: Command::Sprint(SprintOption::Current) })
            } else if rest == 1 && str_eq(args[2], "show-all") {
                Ok(Cli { command: Command::Sprint(SprintOption::ShowAll) })
            } else if rest == 1 && str_eq(args[2], "set") {
                Ok(Cli { command: Command::Sprint(SprintOption::Pick) })
            } else if rest == 1 && str_eq(args[2], "new") {
                Ok(Cli { command: Command::Sprint(SprintOption::New { name: None }) })
            } else if rest == 3 && str_eq(args[2], "new") && (str_eq(args[3], "-n") || str_eq(args[3], "--name"))
                && is_value_exec(args[4]) {
                Ok(Cli { command: Command::Sprint(SprintOption::New { name: Some(owned(args[4])) }) })
            } else {
                bad
            }
        } else if str_eq(sub, "stage") {
            if rest >= 1 && (str_eq(args[2], "add") || str_eq(args[2], "delete") || str_eq(args[2], "tree")
                || str_eq(args[2], "update")) {
                match parse_query_args(args, 3) {
                    Some(q) => {
                        let option = if str_eq(args[2], "add") {
                            StageOption::Add(q)
                        } else if str_eq(args[2], "delete") {
                            StageOption::Delete(q)
                        } else if str_eq(args[2], "tree") {
                            StageOption::Tree(q)
                        } else {
                            StageOption::Update(q)
                        };
                        Ok(Cli { command: Command::Stage(option) })
                    },
                    None => bad,
                }
            } else {
                bad
            }
        } else {
            Err(concat("unrecognized subcommand ", sub))
        }
    }
}
} // verus!
