//! The cursor of one scan: it asks for the request to send, takes the
//! response in, and then serves the rows one by one.
use vstd::prelude::*;
use crate::error::QueryError;
use crate::flatten::{
    bind_variables, bound_variables, cells, flatten, flattened, lemma_row_width, pair_texts,
    payload, reported_errors, rows_of,
};
use crate::json::{text_of, Json, Scalar, ScalarView};
use crate::optimize::{optimize_query, optimized};
use crate::plan::QueryInfo;
use crate::table::{Config, ConfigView, GraphQLTab};
use crate::text::{optional_text, texts};

verus! {

/// Where a cursor stands in its scan.
#[derive(Debug, Clone, Copy, PartialEq, Eq)]
pub enum CursorState {
    /// No response has been taken in since the cursor was opened or a scan
    /// was started; there are no rows.
    Idle,
    /// The current row is one of the scan's rows.
    Scanning,
    /// The cursor is past the last row of the scan.
    Exhausted,
}

/// What to send to the endpoint for one scan.
#[derive(Debug, Clone, PartialEq, Eq)]
pub struct Request {
    pub operation_name: String,
    pub query: String,
    /// The variables, each a name and a literal; where a name comes twice
    /// the later one counts.
    pub variables: Vec<(String, String)>,
}

/// The host asked for a column that the schema does not declare.
#[derive(Debug, Clone, Copy, PartialEq, Eq)]
pub struct IndexError {
    pub column: i32,
}

/// The cursor of one scan over a table.
pub struct GraphqlTabCursor {
    config: Config,
    rows: Vec<Vec<Scalar>>,
    row_number: usize,
    loaded: bool,
}

impl GraphqlTabCursor {
    /// Every row has one value for each declared column, and there are
    /// rows only once a response has been taken in.
    #[verifier::type_invariant]
    spec fn well_formed(self) -> bool {
        &&& !self.loaded ==> self.rows@.len() == 0
        &&& forall|r: int|
            0 <= r < self.rows@.len() ==> (#[trigger] self.rows@[r])@.len()
                == self.config@.query_details.results.len()
                + self.config@.query_details.variables.len()
    }

    /// The configuration of the table that this cursor scans.
    pub closed spec fn config(self) -> ConfigView {
        self.config@
    }

    /// The rows of the current scan.
    pub closed spec fn rows(self) -> Seq<Seq<ScalarView>> {
        rows_of(self.rows@)
    }

    /// The index of the current row; at the number of rows or beyond it
    /// there is no current row.
    pub closed spec fn position(self) -> nat {
        self.row_number as nat
    }

    /// Whether a response has been taken in for the current scan.
    pub closed spec fn loaded(self) -> bool {
        self.loaded
    }

    /// Where the cursor stands.
    pub open spec fn state(self) -> CursorState {
        if !self.loaded() {
            CursorState::Idle
        } else if self.position() < self.rows().len() {
            CursorState::Scanning
        } else {
            CursorState::Exhausted
        }
    }

    /// The number of columns that the table declares.
    pub open spec fn column_count(self) -> nat {
        self.config().query_details.results.len() + self.config().query_details.variables.len()
    }

    /// Opens a cursor: no rows, before any scan.
    pub fn new(config: Config) -> (cursor: GraphqlTabCursor)
        ensures
            cursor.config() == config@,
            cursor.rows().len() == 0,
            cursor.position() == 0,
            cursor.state() == CursorState::Idle,
    {
        GraphqlTabCursor { config, rows: Vec::new(), row_number: 0, loaded: false }
    }

    /// Starts a scan: drops the rows of any earlier scan, goes back to the
    /// first row, and gives the request to send: the query pruned to the
    /// columns that the plan says are read, and the variables bound by the
    /// scan's arguments. A cursor may start a scan any number of times.
    pub fn filter(&mut self, query_info: &QueryInfo, args: &Vec<String>) -> (r: Result<
        Request,
        QueryError,
    >)
        ensures
            final(self).config() == old(self).config(),
            final(self).rows().len() == 0,
            final(self).position() == 0,
            final(self).state() == CursorState::Idle,
            match r {
                Ok(request) => {
                    &&& optimized(
                        old(self).config().query,
                        query_info.col_used,
                        Ok(request.query@),
                    )
                    &&& request.operation_name@ == old(self).config().query_details.operation_name
                    &&& pair_texts(request.variables@) == bound_variables(
                        old(self).config().query_details.variables,
                        old(self).config().query_details.results.len(),
                        query_info@.0,
                        texts(args@),
                    )
                },
                Err(e) => optimized(old(self).config().query, query_info.col_used, Err(e@)),
            },
    {
        self.rows = Vec::new();
        self.row_number = 0;
        self.loaded = false;
        assert(rows_of(self.rows@) =~= Seq::empty());
        let variables = bind_variables(&self.config.query_details, query_info, args);
        let query = match optimize_query(self.config.query.as_str(), query_info.col_used) {
            Ok(query) => query,
            Err(e) => {
                return Err(e);
            },
        };
        Ok(
            Request {
                operation_name: self.config.query_details.operation_name.clone(),
                query,
                variables,
            },
        )
    }

    /// Takes in the response to the request of `filter`, with the plan and
    /// the arguments of the same scan. A response that reports errors is
    /// refused with them and leaves the cursor without rows; any other
    /// response is flattened into the rows of the scan, and the cursor
    /// stands on the first of them.
    pub fn load<'a>(&mut self, query_info: &QueryInfo, args: &Vec<String>, response: &'a Json) -> (r:
        Result<(), &'a Json>)
        ensures
            final(self).config() == old(self).config(),
            final(self).position() == 0,
            match reported_errors(*response) {
                Some(errors) => {
                    &&& r matches Err(e) && *e == errors
                    &&& final(self).rows().len() == 0
                    &&& final(self).state() == CursorState::Idle
                },
                None => {
                    &&& r is Ok
                    &&& final(self).loaded()
                    &&& final(self).rows() == flattened(
                        payload(*response, old(self).config().query_details.endpoint_name),
                        old(self).config().query_details.results,
                        old(self).config().query_details.variables.len(),
                        query_info@.0,
                        texts(args@),
                    )
                },
            },
    {
        proof {
            use_type_invariant(&*self);
        }
        self.row_number = 0;
        match flatten(&self.config.query_details, query_info, args, response) {
            Ok(rows) => {
                proof {
                    lemma_row_width(
                        payload(*response, self.config@.query_details.endpoint_name),
                        self.config@.query_details.results,
                        self.config@.query_details.variables.len(),
                        query_info@.0,
                        texts(args@),
                    );
                    assert forall|r: int| 0 <= r < rows@.len() implies (#[trigger] rows@[r])@.len()
                        == self.config@.query_details.results.len()
                        + self.config@.query_details.variables.len() by {
                        assert(rows_of(rows@)[r].len() == rows@[r]@.len());
                    }
                }
                self.loaded = true;
                self.rows = rows;
                Ok(())
            },
            Err(errors) => {
                self.rows = Vec::new();
                self.loaded = false;
                assert(rows_of(self.rows@) =~= Seq::empty());
                Err(errors)
            },
        }
    }

    /// Goes to the next row. The index stops at the largest `usize`.
    pub fn next(&mut self)
        ensures
            final(self).config() == old(self).config(),
            final(self).rows() == old(self).rows(),
            final(self).loaded() == old(self).loaded(),
            final(self).position() == (if old(self).position() < usize::MAX {
                old(self).position() + 1
            } else {
                old(self).position()
            }),
    {
        proof {
            use_type_invariant(&*self);
        }
        if self.row_number < usize::MAX {
            self.row_number = self.row_number + 1;
        }
    }

    /// Whether the cursor is past the last row.
    pub fn eof(&self) -> (b: bool)
        ensures
            b == (self.position() >= self.rows().len()),
            b == (self.state() != CursorState::Scanning),
    {
        proof {
            use_type_invariant(self);
        }
        self.row_number >= self.rows.len()
    }

    /// The current row's value in column `col`, as text: none for null and
    /// where there is no current row. A column that the schema does not
    /// declare is an error.
    pub fn column(&self, col: i32) -> (r: Result<Option<String>, IndexError>)
        ensures
            match r {
                Ok(text) => {
                    &&& 0 <= col < self.column_count()
                    &&& optional_text(text) == (if self.position() < self.rows().len() {
                        text_of(self.rows()[self.position() as int][col as int])
                    } else {
                        None
                    })
                },
                Err(e) => (col < 0 || col >= self.column_count()) && e.column == col,
            },
    {
        proof {
            use_type_invariant(self);
        }
        if col < 0 {
            return Err(IndexError { column: col });
        }
        let index = col as usize;
        let result_count = self.config.query_details.results.len();
        let declared = index < result_count || index - result_count
            < self.config.query_details.variables.len();
        if !declared {
            return Err(IndexError { column: col });
        }
        if self.row_number >= self.rows.len() {
            return Ok(None);
        }
        let row = &self.rows[self.row_number];
        assert(rows_of(self.rows@)[self.row_number as int] == cells(row@));
        Ok(row[index].text())
    }

    /// The identity of the current row: its index in the scan.
    pub fn rowid(&self) -> (id: i64)
        ensures
            id == (if self.position() <= i64::MAX {
                self.position() as int
            } else {
                i64::MAX as int
            }),
    {
        if self.row_number as u64 <= i64::MAX as u64 {
            self.row_number as i64
        } else {
            i64::MAX
        }
    }
}

impl GraphQLTab {
    /// Opens a cursor for a scan of this table, with a copy of its
    /// configuration.
    pub fn open(&self) -> (cursor: GraphqlTabCursor)
        ensures
            cursor.config() == self.config@,
            cursor.rows().len() == 0,
            cursor.position() == 0,
            cursor.state() == CursorState::Idle,
    {
        GraphqlTabCursor::new(self.config.copy())
    }
}

} // verus!
