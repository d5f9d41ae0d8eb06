//! What a server decides when it starts: what it was called with, whether a
//! workspace is fit to be served, and what it says of its zones.

use crate::guid::Uuid;
use crate::index::tables::NUMERIC_ID_PROPERTY;
use crate::index::validation::{ValidationIssue, ValidationIssueView, ValidationSeverity};
use crate::index::{descendants, WorkspaceIndex};
use crate::properties::{copy_text, text_view, value_at, Properties};
use crate::text::{lower, lowered, same_text, trim, trimmed};
use crate::views::{lemma_views_push, views};
use crate::workspace::{zone_at, Workspace, Zone};
use vstd::prelude::*;

verus! {

// ---------------------------------------------------------------------------
// arguments
// ---------------------------------------------------------------------------

/// What a server was called with.
#[derive(Debug, PartialEq, Eq)]
pub struct Invocation {
    /// The directory of the workspace; none if one will be pushed.
    pub dir: Option<String>,
    /// The address to listen on.
    pub addr: String,
}

/// What a [`Invocation`] stands for.
pub struct InvocationView {
    pub dir: Option<Seq<char>>,
    pub addr: Seq<char>,
}

impl View for Invocation {
    type V = InvocationView;

    open spec fn view(&self) -> InvocationView {
        InvocationView {
            dir: text_view(self.dir),
            addr: self.addr@,
        }
    }
}

impl Clone for Invocation {
    fn clone(&self) -> (r: Self)
        ensures
            r == *self,
    {
        let r = Invocation {
            dir: copy_text(&self.dir),
            addr: self.addr.clone(),
        };
        r
    }
}

/// The argument at a place, or a default.
pub open spec fn argument_or(args: Seq<Seq<char>>, i: int, default: Seq<char>) -> Seq<char> {
    if 0 <= i < args.len() {
        args[i]
    } else {
        default
    }
}

/// What arguments say: a directory, which is left out behind `--no-map`, and an
/// address.
pub open spec fn invocation_of(args: Seq<Seq<char>>) -> InvocationView {
    if args.len() > 0 && args[0] == "--no-map"@ {
        InvocationView { dir: None, addr: argument_or(args, 1, "0.0.0.0:8080"@) }
    } else {
        InvocationView {
            dir: Some(argument_or(args, 0, "examples/fixed"@)),
            addr: argument_or(args, 1, "0.0.0.0:8080"@),
        }
    }
}

fn find_argument(args: &Vec<String>, i: usize, default: &str) -> (s: String)
    ensures
        s@ == argument_or(views(args@), i as int, default@),
{
    if i < args.len() {
        assert(views(args@)[i as int] == args@[i as int]@);
        args[i].clone()
    } else {
        default.to_owned()
    }
}

impl Invocation {
    /// Reads the arguments behind the name of the program.
    pub fn from_args(args: &Vec<String>) -> (i: Self)
        ensures
            i@ == invocation_of(views(args@)),
    {
        let no_map = if args.len() > 0 {
            assert(views(args@)[0] == args@[0]@);
            same_text(args[0].as_str(), "--no-map")
        } else {
            false
        };
        let addr = find_argument(args, 1, "0.0.0.0:8080");
        if no_map {
            Invocation { dir: None, addr }
        } else {
            Invocation { dir: Some(find_argument(args, 0, "examples/fixed")), addr }
        }
    }
}

/// Whether a text switches something on.
pub open spec fn switches_on(text: Seq<char>) -> bool {
    let t = lowered(trimmed(text));
    t == "1"@ || t == "true"@ || t == "yes"@
}

/// Whether a text switches something on.
pub fn is_switched_on(text: &str) -> (b: bool)
    ensures
        b == switches_on(text@),
{
    let t = lower(trim(text));
    same_text(t.as_str(), "1") || same_text(t.as_str(), "true") || same_text(t.as_str(), "yes")
}

// ---------------------------------------------------------------------------
// fitness
// ---------------------------------------------------------------------------

/// How many of a list of findings are errors.
pub open spec fn errors_among(issues: Seq<ValidationIssueView>) -> nat
    decreases issues.len(),
{
    if issues.len() == 0 {
        0
    } else {
        errors_among(issues.drop_last()) + if issues.last().severity == ValidationSeverity::Error {
            1nat
        } else {
            0nat
        }
    }
}

/// How many of a list of findings are errors. A workspace with any is not served.
pub fn count_errors(issues: &Vec<ValidationIssue>) -> (n: usize)
    ensures
        n == errors_among(views(issues@)),
{
    let ghost all = views(issues@);
    let mut n: usize = 0;
    let mut i: usize = 0;
    assert(all.take(0) =~= Seq::empty());
    while i < issues.len()
        invariant
            i <= issues.len(),
            n <= i,
            all == views(issues@),
            n == errors_among(all.take(i as int)),
        decreases issues.len() - i,
    {
        assert(all.take(i as int + 1).drop_last() =~= all.take(i as int));
        assert(all[i as int] == issues@[i as int]@);
        if issues[i].severity == ValidationSeverity::Error {
            n = n + 1;
        }
        i = i + 1;
    }
    assert(all.take(i as int) =~= all);
    n
}

// ---------------------------------------------------------------------------
// zones
// ---------------------------------------------------------------------------

/// What is said of a zone.
#[derive(Debug, PartialEq, Eq)]
pub struct ZoneLine {
    pub id: Uuid,
    pub name: String,
    /// Its numeric alias, as it is stated.
    pub numeric_id: Option<String>,
    /// Its policy, as it is stated, or a hyphen.
    pub policy: String,
}

/// What a [`ZoneLine`] stands for.
pub struct ZoneLineView {
    pub id: Uuid,
    pub name: Seq<char>,
    pub numeric_id: Option<Seq<char>>,
    pub policy: Seq<char>,
}

impl View for ZoneLine {
    type V = ZoneLineView;

    open spec fn view(&self) -> ZoneLineView {
        ZoneLineView {
            id: self.id,
            name: self.name@,
            numeric_id: text_view(self.numeric_id),
            policy: self.policy@,
        }
    }
}

impl Clone for ZoneLine {
    fn clone(&self) -> (r: Self)
        ensures
            r == *self,
    {
        let r = ZoneLine {
            id: self.id,
            name: self.name.clone(),
            numeric_id: copy_text(&self.numeric_id),
            policy: self.policy.clone(),
        };
        r
    }
}

/// What is said of a zone.
pub open spec fn zone_line(id: Uuid, zone: &Zone) -> ZoneLineView {
    ZoneLineView {
        id,
        name: zone.name@,
        numeric_id: value_at(zone.properties@, NUMERIC_ID_PROPERTY@),
        policy: match value_at(zone.properties@, "traffic.policy"@) {
            Some(p) => p,
            None => "-"@,
        },
    }
}

/// What is said of a list of zones, as far as they are there.
pub open spec fn zone_lines(ws: &Workspace, ids: Seq<Uuid>) -> Seq<ZoneLineView>
    decreases ids.len(),
{
    if ids.len() == 0 {
        Seq::empty()
    } else {
        let before = zone_lines(ws, ids.drop_last());
        match zone_at(ws, ids.last()) {
            Some(zone) => before.push(zone_line(ids.last(), zone)),
            None => before,
        }
    }
}

/// The root zone and all zones below it.
pub open spec fn all_zones(ws: &Workspace) -> Seq<Uuid> {
    seq![ws.root.id] + descendants(ws, ws.root.id)
}

fn find_text(properties: &Properties, key: &str) -> (t: Option<String>)
    ensures
        text_view(t) == value_at(properties@, key@),
{
    match properties.get(key) {
        Some(v) => Some(v.clone()),
        None => None,
    }
}

fn make_zone_line(id: Uuid, zone: &Zone) -> (l: ZoneLine)
    ensures
        l@ == zone_line(id, zone),
{
    let policy = match find_text(&zone.properties, "traffic.policy") {
        Some(p) => p,
        None => "-".to_owned(),
    };
    ZoneLine {
        id,
        name: zone.name.clone(),
        numeric_id: find_text(&zone.properties, NUMERIC_ID_PROPERTY),
        policy,
    }
}

/// Lists the zones of a workspace, the root first.
pub fn list_zones(index: &WorkspaceIndex) -> (lines: Vec<ZoneLine>)
    ensures
        views(lines@) == zone_lines(&index@, all_zones(&index@)),
{
    let ghost ws = &index@;
    let ids = index.all_zone_ids();
    let mut lines: Vec<ZoneLine> = Vec::new();
    let mut i: usize = 0;
    assert(ids@.take(0) =~= Seq::empty());
    assert(views(lines@) =~= Seq::empty());
    while i < ids.len()
        invariant
            i <= ids.len(),
            ws == &index@,
            views(lines@) == zone_lines(ws, ids@.take(i as int)),
        decreases ids.len() - i,
    {
        assert(ids@.take(i as int + 1).drop_last() =~= ids@.take(i as int));
        if let Some(zone) = index.zone(ids[i]) {
            let line = make_zone_line(ids[i], zone);
            proof {
                lemma_views_push(lines@, line);
            }
            lines.push(line);
        }
        i = i + 1;
    }
    assert(ids@.take(i as int) =~= ids@);
    lines
}

} // verus!
