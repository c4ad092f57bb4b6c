use crate::laws::{distinct_keys, lemma_lookup_params_distinct};
use crate::method::HttpMethod;
use crate::path::parse_route;
use crate::table::{
    found_view, insert_outcome, pairs_view, table_lookup, table_wf, Handler, RouteTable,
    RouterError,
};
use vstd::prelude::*;
use vstd::rwlock::{RwLock, RwLockPredicate};

verus! {

/// The invariant each table lock maintains: whatever table is stored is
/// well formed, so no two of its templates are ambiguous for any path.
pub struct TableWf;

impl RwLockPredicate<RouteTable> for TableWf {
    open spec fn inv(self, v: RouteTable) -> bool {
        v.wf()
    }
}

/// The router: one route table per HTTP method, each behind its own
/// reader-writer lock. Lookups on one method's table run in parallel;
/// a registration takes exclusive access to its own method's table only,
/// so it never delays work on any other method.
pub struct HttpRouter {
    get: RwLock<RouteTable, TableWf>,
    post: RwLock<RouteTable, TableWf>,
    put: RwLock<RouteTable, TableWf>,
    delete: RwLock<RouteTable, TableWf>,
    patch: RwLock<RouteTable, TableWf>,
    head: RwLock<RouteTable, TableWf>,
    options: RwLock<RouteTable, TableWf>,
    connect: RwLock<RouteTable, TableWf>,
    trace: RwLock<RouteTable, TableWf>,
}

impl HttpRouter {
    /// The one table that serves `method`; no other method's table is
    /// ever touched on its behalf.
    fn table(&self, method: HttpMethod) -> (t: &RwLock<RouteTable, TableWf>)
        ensures
            t.pred() == TableWf,
    {
        match method {
            HttpMethod::GET => &self.get,
            HttpMethod::POST => &self.post,
            HttpMethod::PUT => &self.put,
            HttpMethod::DELETE => &self.delete,
            HttpMethod::PATCH => &self.patch,
            HttpMethod::HEAD => &self.head,
            HttpMethod::OPTIONS => &self.options,
            HttpMethod::CONNECT => &self.connect,
            HttpMethod::TRACE => &self.trace,
        }
    }

    /// A router with one empty table per method: nothing is registered,
    /// so every lookup reports no match.
    pub fn new() -> HttpRouter {
        HttpRouter {
            get: RwLock::new(RouteTable::new(), Ghost(TableWf)),
            post: RwLock::new(RouteTable::new(), Ghost(TableWf)),
            put: RwLock::new(RouteTable::new(), Ghost(TableWf)),
            delete: RwLock::new(RouteTable::new(), Ghost(TableWf)),
            patch: RwLock::new(RouteTable::new(), Ghost(TableWf)),
            head: RwLock::new(RouteTable::new(), Ghost(TableWf)),
            options: RwLock::new(RouteTable::new(), Ghost(TableWf)),
            connect: RwLock::new(RouteTable::new(), Ghost(TableWf)),
            trace: RwLock::new(RouteTable::new(), Ghost(TableWf)),
        }
    }

    /// Registers `handler` under the template `route` in `method`'s table,
    /// holding that table's write lock for the duration of the call. The
    /// registration is rejected with [`RouterError::TemplateConflict`],
    /// and the table left untouched, exactly when the template is
    /// ambiguous with one already registered there. The method
    /// enumeration is closed, so the defensive
    /// [`RouterError::UnsupportedMethod`] is never produced.
    pub fn add_route(&self, method: HttpMethod, route: &str, handler: Handler) -> (r: Result<
        (),
        RouterError,
    >)
        ensures
            r is Err ==> r == Err::<(), RouterError>(RouterError::TemplateConflict),
            exists|t: Seq<crate::table::RouteView>|
                #![trigger insert_outcome(t, parse_route(route@))]
                table_wf(t) && r == insert_outcome(t, parse_route(route@)),
    {
        let lock = self.table(method);
        let (mut table, write_handle) = lock.acquire_write();
        let ghost before = table@;
        let r = table.insert(route, handler);
        proof {
            assert(table_wf(before) && r == insert_outcome(before, parse_route(route@)));
        }
        write_handle.release_write(table);
        r
    }

    /// Resolves `path` in `method`'s table under that table's read lock:
    /// the path exactly as given first, then the trailing-slash fallbacks,
    /// as [`table_lookup`] describes of the table the lock holds. Whatever
    /// that table is, it is well formed, and the result is explained by it;
    /// no match is an ordinary outcome, never an error.
    pub fn get_route(&self, method: HttpMethod, route: &str) -> (r: Option<
        (Handler, Vec<(String, String)>),
    >)
        ensures
            exists|t: Seq<crate::table::RouteView>|
                table_wf(t) && found_view(r) == #[trigger] table_lookup(t, route@),
            r matches Some(found) ==> distinct_keys(pairs_view(found.1@)),
    {
        let lock = self.table(method);
        let read_handle = lock.acquire_read();
        let table = read_handle.borrow();
        let r = table.lookup(route);
        proof {
            assert(table_wf(table@) && found_view(r) == table_lookup(table@, route@));
            lemma_lookup_params_distinct(table@, route@);
        }
        read_handle.release_read();
        r
    }
}

} // verus!
