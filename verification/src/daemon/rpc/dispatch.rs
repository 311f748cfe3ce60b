//! Which method a request is for.
use crate::text;
use vstd::prelude::*;

verus! {

broadcast use vstd::string::group_string_axioms;

/// The methods that a session can call.
#[derive(Debug, Clone, Copy, PartialEq, Eq, Structural)]
pub enum Method {
    LogsRecent,
    LogsContext,
    LogsExport,
    LogsClear,
    StatusGet,
    ToolsManifest,
    FiltersList,
    FiltersAdd,
    FiltersEdit,
    FiltersRemove,
    TriggersList,
    TriggersAdd,
    TriggersEdit,
    TriggersRemove,
    SessionsList,
    SessionsDrop,
    DomainsCreate,
    DomainsDelete,
    DomainsList,
    DomainsUse,
    SessionsRename,
    DomainsClear,
    DomainDataUpdate,
    DomainDataRemove,
    DomainDataGet,
    TracesRecent,
    TracesGet,
    TracesSummary,
    TracesSlow,
    TracesLogs,
    SpansContext,
    SpansExport,
    CasesCreate,
    BookmarksAdd,
    BookmarksList,
    BookmarksRemove,
    BookmarksClear,
    CollectorsAdd,
    CollectorsList,
    CollectorsGet,
    CollectorsEdit,
    CollectorsSnapshot,
    CollectorsHistory,
    CollectorsDiff,
    CollectorsDocument,
    CollectorsReset,
    CollectorsRemove,
    TracesProfile,
}

impl Method {
    /// The name of a method.
    pub open spec fn name(self) -> Seq<char> {
        match self {
            Method::LogsRecent => "logs.recent"@,
            Method::LogsContext => "logs.context"@,
            Method::LogsExport => "logs.export"@,
            Method::LogsClear => "logs.clear"@,
            Method::StatusGet => "status.get"@,
            Method::ToolsManifest => "tools.manifest"@,
            Method::FiltersList => "filters.list"@,
            Method::FiltersAdd => "filters.add"@,
            Method::FiltersEdit => "filters.edit"@,
            Method::FiltersRemove => "filters.remove"@,
            Method::TriggersList => "triggers.list"@,
            Method::TriggersAdd => "triggers.add"@,
            Method::TriggersEdit => "triggers.edit"@,
            Method::TriggersRemove => "triggers.remove"@,
            Method::SessionsList => "sessions.list"@,
            Method::SessionsDrop => "sessions.drop"@,
            Method::DomainsCreate => "domains.create"@,
            Method::DomainsDelete => "domains.delete"@,
            Method::DomainsList => "domains.list"@,
            Method::DomainsUse => "domains.use"@,
            Method::SessionsRename => "sessions.rename"@,
            Method::DomainsClear => "domains.clear"@,
            Method::DomainDataUpdate => "domain_data.update"@,
            Method::DomainDataRemove => "domain_data.remove"@,
            Method::DomainDataGet => "domain_data.get"@,
            Method::TracesRecent => "traces.recent"@,
            Method::TracesGet => "traces.get"@,
            Method::TracesSummary => "traces.summary"@,
            Method::TracesSlow => "traces.slow"@,
            Method::TracesLogs => "traces.logs"@,
            Method::SpansContext => "spans.context"@,
            Method::SpansExport => "spans.export"@,
            Method::CasesCreate => "cases.create"@,
            Method::BookmarksAdd => "bookmarks.add"@,
            Method::BookmarksList => "bookmarks.list"@,
            Method::BookmarksRemove => "bookmarks.remove"@,
            Method::BookmarksClear => "bookmarks.clear"@,
            Method::CollectorsAdd => "collectors.add"@,
            Method::CollectorsList => "collectors.list"@,
            Method::CollectorsGet => "collectors.get"@,
            Method::CollectorsEdit => "collectors.edit"@,
            Method::CollectorsSnapshot => "collectors.snapshot"@,
            Method::CollectorsHistory => "collectors.history"@,
            Method::CollectorsDiff => "collectors.diff"@,
            Method::CollectorsDocument => "collectors.document"@,
            Method::CollectorsReset => "collectors.reset"@,
            Method::CollectorsRemove => "collectors.remove"@,
            Method::TracesProfile => "traces.profile"@,
        }
    }

    /// The method of a name.
    pub fn parse(name: &str) -> (r: Option<Method>)
        ensures
            match r {
                Some(m) => m.name() == name@,
                None => forall|m: Method| (#[trigger] m.name()) != name@,
            },
    {
        if text::same(name, "logs.recent") {
            Some(Method::LogsRecent)
        } else if text::same(name, "logs.context") {
            Some(Method::LogsContext)
        } else if text::same(name, "logs.export") {
            Some(Method::LogsExport)
        } else if text::same(name, "logs.clear") {
            Some(Method::LogsClear)
        } else if text::same(name, "status.get") {
            Some(Method::StatusGet)
        } else if text::same(name, "tools.manifest") {
            Some(Method::ToolsManifest)
        } else if text::same(name, "filters.list") {
            Some(Method::FiltersList)
        } else if text::same(name, "filters.add") {
            Some(Method::FiltersAdd)
        } else if text::same(name, "filters.edit") {
            Some(Method::FiltersEdit)
        } else if text::same(name, "filters.remove") {
            Some(Method::FiltersRemove)
        } else if text::same(name, "triggers.list") {
            Some(Method::TriggersList)
        } else if text::same(name, "triggers.add") {
            Some(Method::TriggersAdd)
        } else if text::same(name, "triggers.edit") {
            Some(Method::TriggersEdit)
        } else if text::same(name, "triggers.remove") {
            Some(Method::TriggersRemove)
        } else if text::same(name, "sessions.list") {
            Some(Method::SessionsList)
        } else if text::same(name, "sessions.drop") {
            Some(Method::SessionsDrop)
        } else if text::same(name, "domains.create") {
            Some(Method::DomainsCreate)
        } else if text::same(name, "domains.delete") {
            Some(Method::DomainsDelete)
        } else if text::same(name, "domains.list") {
            Some(Method::DomainsList)
        } else if text::same(name, "domains.use") {
            Some(Method::DomainsUse)
        } else if text::same(name, "sessions.rename") {
            Some(Method::SessionsRename)
        } else if text::same(name, "domains.clear") {
            Some(Method::DomainsClear)
        } else if text::same(name, "domain_data.update") {
            Some(Method::DomainDataUpdate)
        } else if text::same(name, "domain_data.remove") {
            Some(Method::DomainDataRemove)
        } else if text::same(name, "domain_data.get") {
            Some(Method::DomainDataGet)
        } else if text::same(name, "traces.recent") {
            Some(Method::TracesRecent)
        } else if text::same(name, "traces.get") {
            Some(Method::TracesGet)
        } else if text::same(name, "traces.summary") {
            Some(Method::TracesSummary)
        } else if text::same(name, "traces.slow") {
            Some(Method::TracesSlow)
        } else if text::same(name, "traces.logs") {
            Some(Method::TracesLogs)
        } else if text::same(name, "spans.context") {
            Some(Method::SpansContext)
        } else if text::same(name, "spans.export") {
            Some(Method::SpansExport)
        } else if text::same(name, "cases.create") {
            Some(Method::CasesCreate)
        } else if text::same(name, "bookmarks.add") {
            Some(Method::BookmarksAdd)
        } else if text::same(name, "bookmarks.list") {
            Some(Method::BookmarksList)
        } else if text::same(name, "bookmarks.remove") {
            Some(Method::BookmarksRemove)
        } else if text::same(name, "bookmarks.clear") {
            Some(Method::BookmarksClear)
        } else if text::same(name, "collectors.add") {
            Some(Method::CollectorsAdd)
        } else if text::same(name, "collectors.list") {
            Some(Method::CollectorsList)
        } else if text::same(name, "collectors.get") {
            Some(Method::CollectorsGet)
        } else if text::same(name, "collectors.edit") {
            Some(Method::CollectorsEdit)
        } else if text::same(name, "collectors.snapshot") {
            Some(Method::CollectorsSnapshot)
        } else if text::same(name, "collectors.history") {
            Some(Method::CollectorsHistory)
        } else if text::same(name, "collectors.diff") {
            Some(Method::CollectorsDiff)
        } else if text::same(name, "collectors.document") {
            Some(Method::CollectorsDocument)
        } else if text::same(name, "collectors.reset") {
            Some(Method::CollectorsReset)
        } else if text::same(name, "collectors.remove") {
            Some(Method::CollectorsRemove)
        } else if text::same(name, "traces.profile") {
            Some(Method::TracesProfile)
        } else {
            proof {
                assert forall|m: Method| (#[trigger] m.name()) != name@ by {
                    match m {
                        Method::LogsRecent => {},
                        Method::LogsContext => {},
                        Method::LogsExport => {},
                        Method::LogsClear => {},
                        Method::StatusGet => {},
                        Method::ToolsManifest => {},
                        Method::FiltersList => {},
                        Method::FiltersAdd => {},
                        Method::FiltersEdit => {},
                        Method::FiltersRemove => {},
                        Method::TriggersList => {},
                        Method::TriggersAdd => {},
                        Method::TriggersEdit => {},
                        Method::TriggersRemove => {},
                        Method::SessionsList => {},
                        Method::SessionsDrop => {},
                        Method::DomainsCreate => {},
                        Method::DomainsDelete => {},
                        Method::DomainsList => {},
                        Method::DomainsUse => {},
                        Method::SessionsRename => {},
                        Method::DomainsClear => {},
                        Method::DomainDataUpdate => {},
                        Method::DomainDataRemove => {},
                        Method::DomainDataGet => {},
                        Method::TracesRecent => {},
                        Method::TracesGet => {},
                        Method::TracesSummary => {},
                        Method::TracesSlow => {},
                        Method::TracesLogs => {},
                        Method::SpansContext => {},
                        Method::SpansExport => {},
                        Method::CasesCreate => {},
                        Method::BookmarksAdd => {},
                        Method::BookmarksList => {},
                        Method::BookmarksRemove => {},
                        Method::BookmarksClear => {},
                        Method::CollectorsAdd => {},
                        Method::CollectorsList => {},
                        Method::CollectorsGet => {},
                        Method::CollectorsEdit => {},
                        Method::CollectorsSnapshot => {},
                        Method::CollectorsHistory => {},
                        Method::CollectorsDiff => {},
                        Method::CollectorsDocument => {},
                        Method::CollectorsReset => {},
                        Method::CollectorsRemove => {},
                        Method::TracesProfile => {},
                    }
                }
            }
            None
        }
    }
}

/// A number that tells the names of the methods apart.
spec fn fingerprint(name: Seq<char>) -> int {
    name.len() + 32 * (name[0] as int) + 4096 * (name[8] as int) + 524288 * (name[name.len() - 2] as int)
}

impl Method {
    spec fn mark(self) -> int {
        match self {
            Method::LogsRecent => 58088843,
            Method::LogsContext => 63393164,
            Method::LogsExport => 60226955,
            Method::LogsClear => 51256714,
            Method::StatusGet => 53370474,
            Method::ToolsManifest => 60747406,
            Method::FiltersList => 60738764,
            Method::FiltersAdd => 52829387,
            Method::FiltersEdit => 55467212,
            Method::FiltersRemove => 62336206,
            Method::TriggersList => 60485261,
            Method::TriggersAdd => 52620940,
            Method::TriggersEdit => 55242381,
            Method::TriggersRemove => 62058127,
            Method::SessionsList => 60485229,
            Method::SessionsDrop => 58388077,
            Method::DomainsCreate => 61226126,
            Method::DomainsDelete => 61230222,
            Method::DomainsList => 60738700,
            Method::DomainsUse => 60775563,
            Method::SessionsRename => 57339503,
            Method::DomainsClear => 51264653,
            Method::DomainDataUpdate => 61217938,
            Method::DomainDataRemove => 62266514,
            Method::DomainDataGet => 53353615,
            Method::TracesRecent => 58089101,
            Method::TracesGet => 53370506,
            Method::TracesSummary => 60251790,
            Method::TracesSlow => 58642059,
            Method::TracesLogs => 54460043,
            Method::SpansContext => 63368813,
            Method::SpansExport => 60231276,
            Method::CasesCreate => 61234284,
            Method::BookmarksAdd => 52902989,
            Method::BookmarksList => 60767310,
            Method::BookmarksRemove => 62340176,
            Method::BookmarksClear => 51330127,
            Method::CollectorsAdd => 52898926,
            Method::CollectorsList => 60763247,
            Method::CollectorsGet => 53423214,
            Method::CollectorsEdit => 55520367,
            Method::CollectorsSnapshot => 58666099,
            Method::CollectorsHistory => 60238962,
            Method::CollectorsDiff => 53947503,
            Method::CollectorsDocument => 58141811,
            Method::CollectorsReset => 53423216,
            Method::CollectorsRemove => 62336113,
            Method::TracesProfile => 57093774,
        }
    }
}

proof fn lemma_marked(m: Method)
    ensures
        fingerprint(m.name()) == m.mark(),
{
    match m {
        Method::LogsRecent => {
            reveal_strlit("logs.recent");
        },
        Method::LogsContext => {
            reveal_strlit("logs.context");
        },
        Method::LogsExport => {
            reveal_strlit("logs.export");
        },
        Method::LogsClear => {
            reveal_strlit("logs.clear");
        },
        Method::StatusGet => {
            reveal_strlit("status.get");
        },
        Method::ToolsManifest => {
            reveal_strlit("tools.manifest");
        },
        Method::FiltersList => {
            reveal_strlit("filters.list");
        },
        Method::FiltersAdd => {
            reveal_strlit("filters.add");
        },
        Method::FiltersEdit => {
            reveal_strlit("filters.edit");
        },
        Method::FiltersRemove => {
            reveal_strlit("filters.remove");
        },
        Method::TriggersList => {
            reveal_strlit("triggers.list");
        },
        Method::TriggersAdd => {
            reveal_strlit("triggers.add");
        },
        Method::TriggersEdit => {
            reveal_strlit("triggers.edit");
        },
        Method::TriggersRemove => {
            reveal_strlit("triggers.remove");
        },
        Method::SessionsList => {
            reveal_strlit("sessions.list");
        },
        Method::SessionsDrop => {
            reveal_strlit("sessions.drop");
        },
        Method::DomainsCreate => {
            reveal_strlit("domains.create");
        },
        Method::DomainsDelete => {
            reveal_strlit("domains.delete");
        },
        Method::DomainsList => {
            reveal_strlit("domains.list");
        },
        Method::DomainsUse => {
            reveal_strlit("domains.use");
        },
        Method::SessionsRename => {
            reveal_strlit("sessions.rename");
        },
        Method::DomainsClear => {
            reveal_strlit("domains.clear");
        },
        Method::DomainDataUpdate => {
            reveal_strlit("domain_data.update");
        },
        Method::DomainDataRemove => {
            reveal_strlit("domain_data.remove");
        },
        Method::DomainDataGet => {
            reveal_strlit("domain_data.get");
        },
        Method::TracesRecent => {
            reveal_strlit("traces.recent");
        },
        Method::TracesGet => {
            reveal_strlit("traces.get");
        },
        Method::TracesSummary => {
            reveal_strlit("traces.summary");
        },
        Method::TracesSlow => {
            reveal_strlit("traces.slow");
        },
        Method::TracesLogs => {
            reveal_strlit("traces.logs");
        },
        Method::SpansContext => {
            reveal_strlit("spans.context");
        },
        Method::SpansExport => {
            reveal_strlit("spans.export");
        },
        Method::CasesCreate => {
            reveal_strlit("cases.create");
        },
        Method::BookmarksAdd => {
            reveal_strlit("bookmarks.add");
        },
        Method::BookmarksList => {
            reveal_strlit("bookmarks.list");
        },
        Method::BookmarksRemove => {
            reveal_strlit("bookmarks.remove");
        },
        Method::BookmarksClear => {
            reveal_strlit("bookmarks.clear");
        },
        Method::CollectorsAdd => {
            reveal_strlit("collectors.add");
        },
        Method::CollectorsList => {
            reveal_strlit("collectors.list");
        },
        Method::CollectorsGet => {
            reveal_strlit("collectors.get");
        },
        Method::CollectorsEdit => {
            reveal_strlit("collectors.edit");
        },
        Method::CollectorsSnapshot => {
            reveal_strlit("collectors.snapshot");
        },
        Method::CollectorsHistory => {
            reveal_strlit("collectors.history");
        },
        Method::CollectorsDiff => {
            reveal_strlit("collectors.diff");
        },
        Method::CollectorsDocument => {
            reveal_strlit("collectors.document");
        },
        Method::CollectorsReset => {
            reveal_strlit("collectors.reset");
        },
        Method::CollectorsRemove => {
            reveal_strlit("collectors.remove");
        },
        Method::TracesProfile => {
            reveal_strlit("traces.profile");
        },
    }
}

/// No two methods go by the same name, so a name reaches the method that it is
/// the name of, and no other.
pub proof fn names_tell_methods_apart(a: Method, b: Method)
    ensures
        a.name() == b.name() <==> a == b,
{
    lemma_marked(a);
    lemma_marked(b);
    if a.name() == b.name() {
        assert(a.mark() == b.mark());
    }
}

/// The code of every refusal.
pub const REFUSED: i64 = -32601;

/// The method that a request is to be handed to, or why there is none.
///
/// A domain is created by binding ports, which cannot be done without waiting, so
/// a caller that cannot wait is told so rather than that there is no such
/// method.
pub fn route(name: &str, can_wait: bool) -> (r: Result<Method, String>)
    ensures
        match r {
            Ok(m) => m.name() == name@ && (can_wait || m != Method::DomainsCreate),
            Err(e) => {
                ||| e@ == "unknown method: "@ + name@ && forall|m: Method|
                    (#[trigger] m.name()) != name@
                ||| !can_wait && name@ == Method::DomainsCreate.name() && e@
                    == "domains.create must be dispatched via handle_async (it binds ports asynchronously)"@
            },
        },
{
    match Method::parse(name) {
        None => Err(text::join2("unknown method: ", name)),
        Some(Method::DomainsCreate) => if can_wait {
            Ok(Method::DomainsCreate)
        } else {
            Err(
                text::owned(
                    "domains.create must be dispatched via handle_async (it binds ports asynchronously)",
                ),
            )
        },
        Some(m) => Ok(m),
    }
}

/// The names of the methods on the wire.
pub proof fn methods_have_their_names()
    ensures
        Method::LogsRecent.name() == "logs.recent"@,
        Method::LogsContext.name() == "logs.context"@,
        Method::LogsExport.name() == "logs.export"@,
        Method::LogsClear.name() == "logs.clear"@,
        Method::StatusGet.name() == "status.get"@,
        Method::ToolsManifest.name() == "tools.manifest"@,
        Method::FiltersList.name() == "filters.list"@,
        Method::FiltersAdd.name() == "filters.add"@,
        Method::FiltersEdit.name() == "filters.edit"@,
        Method::FiltersRemove.name() == "filters.remove"@,
        Method::TriggersList.name() == "triggers.list"@,
        Method::TriggersAdd.name() == "triggers.add"@,
        Method::TriggersEdit.name() == "triggers.edit"@,
        Method::TriggersRemove.name() == "triggers.remove"@,
        Method::SessionsList.name() == "sessions.list"@,
        Method::SessionsDrop.name() == "sessions.drop"@,
        Method::DomainsCreate.name() == "domains.create"@,
        Method::DomainsDelete.name() == "domains.delete"@,
        Method::DomainsList.name() == "domains.list"@,
        Method::DomainsUse.name() == "domains.use"@,
        Method::SessionsRename.name() == "sessions.rename"@,
        Method::DomainsClear.name() == "domains.clear"@,
        Method::DomainDataUpdate.name() == "domain_data.update"@,
        Method::DomainDataRemove.name() == "domain_data.remove"@,
        Method::DomainDataGet.name() == "domain_data.get"@,
        Method::TracesRecent.name() == "traces.recent"@,
        Method::TracesGet.name() == "traces.get"@,
        Method::TracesSummary.name() == "traces.summary"@,
        Method::TracesSlow.name() == "traces.slow"@,
        Method::TracesLogs.name() == "traces.logs"@,
        Method::SpansContext.name() == "spans.context"@,
        Method::SpansExport.name() == "spans.export"@,
        Method::CasesCreate.name() == "cases.create"@,
        Method::BookmarksAdd.name() == "bookmarks.add"@,
        Method::BookmarksList.name() == "bookmarks.list"@,
        Method::BookmarksRemove.name() == "bookmarks.remove"@,
        Method::BookmarksClear.name() == "bookmarks.clear"@,
        Method::CollectorsAdd.name() == "collectors.add"@,
        Method::CollectorsList.name() == "collectors.list"@,
        Method::CollectorsGet.name() == "collectors.get"@,
        Method::CollectorsEdit.name() == "collectors.edit"@,
        Method::CollectorsSnapshot.name() == "collectors.snapshot"@,
        Method::CollectorsHistory.name() == "collectors.history"@,
        Method::CollectorsDiff.name() == "collectors.diff"@,
        Method::CollectorsDocument.name() == "collectors.document"@,
        Method::CollectorsReset.name() == "collectors.reset"@,
        Method::CollectorsRemove.name() == "collectors.remove"@,
        Method::TracesProfile.name() == "traces.profile"@,
{
}

} // verus!
