//! What the service does with a WMTS request: which request it is, what a
//! tile request asks for, and where the capabilities document lies.

use vstd::prelude::*;
use crate::clock::{directory_time_text, query_time_text, leading_whitespace_trimmed, read_time_labels, utc_conversion_overflows, utc_reading, TimeError, TimeLabels};
use crate::numbers::{decimal_digits, lemma_decimal_round_trip, parse_u32, parse_u8, parsed_unsigned};
use crate::query::{parse_lowercased, query_map_of, QueryError, QueryParams};
use crate::text::{lowercase, lowercase_text};

verus! {


/// The WMTS request that a query names in its `request` parameter.
#[derive(Clone, Copy, Debug, PartialEq, Eq, Structural)]
pub enum RequestKind {
    GetCapabilities,
    GetTile,
    /// No `request` parameter, or one the service does not answer.
    Other,
}

/// `getcapabilities`, `gettile`, or anything else, by the `request` value.
pub open spec fn request_kind_of(q: Map<Seq<char>, Seq<char>>) -> RequestKind {
    if q.contains_key("request"@) && q["request"@] == "getcapabilities"@ {
        RequestKind::GetCapabilities
    } else if q.contains_key("request"@) && q["request"@] == "gettile"@ {
        RequestKind::GetTile
    } else {
        RequestKind::Other
    }
}

/// Which WMTS request the (lowercased) parameters `q` make.
pub fn request_kind(q: &QueryParams) -> (res: RequestKind)
    ensures
        res == request_kind_of(q@),
{
    match q.get("request") {
        Some(v) => {
            if v == String::from_str("getcapabilities") {
                RequestKind::GetCapabilities
            } else if v == String::from_str("gettile") {
                RequestKind::GetTile
            } else {
                RequestKind::Other
            }
        },
        None => RequestKind::Other,
    }
}

/// The request kind is read from the `request` parameter alone: two queries
/// that agree on it (given or not, and its value) make the same request,
/// whatever else they hold or lack.
pub proof fn lemma_request_kind_reads_only_request(q1: Map<Seq<char>, Seq<char>>, q2: Map<Seq<char>, Seq<char>>)
    requires
        q1.contains_key("request"@) == q2.contains_key("request"@),
        q1.contains_key("request"@) ==> q1["request"@] == q2["request"@],
    ensures
        request_kind_of(q1) == request_kind_of(q2),
{
}

/// `request=getcapabilities` is answered with the project's capabilities
/// document, read from `./projects/{project}/WMTSCapabilities.xml`, and
/// `request=gettile` is a tile request, whatever other parameters are given.
pub proof fn lemma_request_values(project: Seq<char>, q: Map<Seq<char>, Seq<char>>)
    ensures
        q.contains_key("request"@) && q["request"@] == "getcapabilities"@ ==> {
            &&& request_kind_of(q) == RequestKind::GetCapabilities
            &&& wmts_plan_of(project, q) == Ok::<WmtsPlanView, TileRequestError>(
                WmtsPlanView::Capabilities {
                    path: "./projects/"@ + project + "/WMTSCapabilities.xml"@,
                },
            )
        },
        q.contains_key("request"@) && q["request"@] == "gettile"@ ==> request_kind_of(q)
            == RequestKind::GetTile,
{
    reveal_strlit("getcapabilities");
    reveal_strlit("gettile");
    assert("gettile"@.len() != "getcapabilities"@.len());
}

/// Why a tile request cannot be answered (the order is that of the checks).
#[derive(Clone, Copy, Debug, PartialEq, Eq, Structural)]
pub enum TileRequestError {
    MissingTileMatrix,
    BadTileMatrix,
    MissingTileCol,
    BadTileCol,
    MissingTileRow,
    BadTileRow,
    MissingLayer,
    /// The time lies on one of chrono's end days and its offset takes it past
    /// that end in UTC.
    TimeBeyondRange,
    BadTime,
}

/// What a tile request asks for.
pub struct TileRequest {
    /// The zoom level (`tilematrix`).
    pub zoom: u8,
    /// The column (`tilecol`).
    pub col: u32,
    /// The row (`tilerow`).
    pub row: u32,
    pub layer: String,
    /// The time asked for, in its two written forms; `None` when no time, or
    /// an empty one, was given.
    pub time: Option<TimeLabels>,
}

/// A tile request as values.
pub struct TileRequestView {
    pub zoom: nat,
    pub col: nat,
    pub row: nat,
    pub layer: Seq<char>,
    /// `%Y-%m-%dT%H:%M:%S` and `%Y%m%dT%H%M%S` of the time asked for.
    pub time: Option<(Seq<char>, Seq<char>)>,
}

impl View for TileRequest {
    type V = TileRequestView;

    open spec fn view(&self) -> TileRequestView {
        TileRequestView {
            zoom: self.zoom as nat,
            col: self.col as nat,
            row: self.row as nat,
            layer: self.layer@,
            time: match self.time {
                Some(l) => Some((l.query_time@, l.directory@)),
                None => None,
            },
        }
    }
}

/// The value of `name`, or the empty text where it is not given.
pub open spec fn value_or_empty(q: Map<Seq<char>, Seq<char>>, name: Seq<char>) -> Seq<char> {
    if q.contains_key(name) {
        q[name]
    } else {
        Seq::empty()
    }
}

/// What the parameters `q` of a tile request ask for: `tilematrix` as a `u8`,
/// `tilecol` and `tilerow` as `u32`, `layer`, and `time` read as a UTC date
/// and time when it is given and not empty; or the first check that fails.
pub open spec fn tile_request_of(q: Map<Seq<char>, Seq<char>>) -> Result<
    TileRequestView,
    TileRequestError,
> {
    if !q.contains_key("tilematrix"@) {
        Err(TileRequestError::MissingTileMatrix)
    } else if parsed_unsigned(q["tilematrix"@], u8::MAX as nat) is None {
        Err(TileRequestError::BadTileMatrix)
    } else if !q.contains_key("tilecol"@) {
        Err(TileRequestError::MissingTileCol)
    } else if parsed_unsigned(q["tilecol"@], u32::MAX as nat) is None {
        Err(TileRequestError::BadTileCol)
    } else if !q.contains_key("tilerow"@) {
        Err(TileRequestError::MissingTileRow)
    } else if parsed_unsigned(q["tilerow"@], u32::MAX as nat) is None {
        Err(TileRequestError::BadTileRow)
    } else if !q.contains_key("layer"@) {
        Err(TileRequestError::MissingLayer)
    } else {
        let t = value_or_empty(q, "time"@);
        let request = TileRequestView {
            zoom: parsed_unsigned(q["tilematrix"@], u8::MAX as nat).unwrap(),
            col: parsed_unsigned(q["tilecol"@], u32::MAX as nat).unwrap(),
            row: parsed_unsigned(q["tilerow"@], u32::MAX as nat).unwrap(),
            layer: q["layer"@],
            time: None,
        };
        if t.len() == 0 {
            Ok(request)
        } else if utc_conversion_overflows(leading_whitespace_trimmed(t)) {
            Err(TileRequestError::TimeBeyondRange)
        } else {
            match utc_reading(t) {
                None => Err(TileRequestError::BadTime),
                Some(f) => Ok(
                    TileRequestView {
                        time: Some((query_time_text(f), directory_time_text(f))),
                        ..request
                    },
                ),
            }
        }
    }
}

/// A tile request whose zoom level, column and row are written in decimal
/// asks for exactly those numbers: every zoom level up to 255 and every
/// column and row up to `u32::MAX` is accepted and kept, with the layer as
/// given; without a time (or with an empty one) no time is asked for. As a
/// `gettile` request it is planned as that tile.
pub proof fn lemma_tile_request_keeps_numbers(
    project: Seq<char>,
    q: Map<Seq<char>, Seq<char>>,
    zoom: nat,
    col: nat,
    row: nat,
)
    requires
        zoom <= 255,
        col <= 4294967295,
        row <= 4294967295,
        q.contains_key("tilematrix"@),
        q["tilematrix"@] == decimal_digits(zoom),
        q.contains_key("tilecol"@),
        q["tilecol"@] == decimal_digits(col),
        q.contains_key("tilerow"@),
        q["tilerow"@] == decimal_digits(row),
        q.contains_key("layer"@),
        !q.contains_key("time"@) || q["time"@].len() == 0,
    ensures
        tile_request_of(q) == Ok::<TileRequestView, TileRequestError>(
            TileRequestView { zoom, col, row, layer: q["layer"@], time: None },
        ),
        q.contains_key("request"@) && q["request"@] == "gettile"@ ==> wmts_plan_of(project, q)
            == Ok::<WmtsPlanView, TileRequestError>(
            WmtsPlanView::Tile(TileRequestView { zoom, col, row, layer: q["layer"@], time: None }),
        ),
{
    lemma_decimal_round_trip(zoom, 255);
    lemma_decimal_round_trip(col, 4294967295);
    lemma_decimal_round_trip(row, 4294967295);
    reveal_strlit("gettile");
    reveal_strlit("getcapabilities");
    assert("gettile"@.len() != "getcapabilities"@.len());
    assert(value_or_empty(q, "time"@).len() == 0);
}

/// The outcome of a tile request as values.
pub open spec fn tile_outcome(r: Result<TileRequest, TileRequestError>) -> Result<
    TileRequestView,
    TileRequestError,
> {
    match r {
        Ok(t) => Ok(t@),
        Err(e) => Err(e),
    }
}

/// Reads what the (lowercased) parameters `q` of a tile request ask for.
pub fn tile_request(q: &QueryParams) -> (res: Result<TileRequest, TileRequestError>)
    ensures
        tile_outcome(res) == tile_request_of(q@),
{
    let zoom = match q.get("tilematrix") {
        None => return Err(TileRequestError::MissingTileMatrix),
        Some(v) => match parse_u8(v.as_str()) {
            None => return Err(TileRequestError::BadTileMatrix),
            Some(z) => z,
        },
    };
    let col = match q.get("tilecol") {
        None => return Err(TileRequestError::MissingTileCol),
        Some(v) => match parse_u32(v.as_str()) {
            None => return Err(TileRequestError::BadTileCol),
            Some(c) => c,
        },
    };
    let row = match q.get("tilerow") {
        None => return Err(TileRequestError::MissingTileRow),
        Some(v) => match parse_u32(v.as_str()) {
            None => return Err(TileRequestError::BadTileRow),
            Some(r) => r,
        },
    };
    let layer = match q.get("layer") {
        None => return Err(TileRequestError::MissingLayer),
        Some(l) => l,
    };
    let time_text = match q.get("time") {
        Some(t) => t,
        None => String::new(),
    };
    assert(time_text@ == value_or_empty(q@, "time"@));
    if time_text.as_str().unicode_len() == 0 {
        return Ok(TileRequest { zoom, col, row, layer, time: None });
    }
    match read_time_labels(time_text.as_str()) {
        Err(TimeError::BeyondRange) => Err(TileRequestError::TimeBeyondRange),
        Err(TimeError::Unreadable) => Err(TileRequestError::BadTime),
        Ok(labels) => Ok(TileRequest { zoom, col, row, layer, time: Some(labels) }),
    }
}

/// What the service does for a WMTS request about `project`.
pub enum WmtsPlan {
    /// Answer with the project's capabilities document, read from `path`.
    Capabilities { path: String },
    /// Answer with one tile.
    Tile(TileRequest),
    /// Answer that the request parameter is missing or not of the right type.
    Unsupported,
}

/// A plan as values.
pub enum WmtsPlanView {
    Capabilities { path: Seq<char> },
    Tile(TileRequestView),
    Unsupported,
}

/// Why a WMTS request cannot be answered.
#[derive(Clone, Copy, Debug, PartialEq, Eq, Structural)]
pub enum WmtsError {
    /// The query string could not be read.
    Query(QueryError),
    /// A tile was asked for, but not in a form the service can use.
    Tile(TileRequestError),
}

/// `./projects/{project}/WMTSCapabilities.xml`
pub open spec fn capabilities_path_text(project: Seq<char>) -> Seq<char> {
    "./projects/"@ + project + "/WMTSCapabilities.xml"@
}

/// The file that holds the capabilities document of `project`.
pub fn capabilities_path(project: &str) -> (res: String)
    ensures
        res@ == capabilities_path_text(project@),
{
    let mut s = String::from_str("./projects/");
    s.append(project);
    s.append("/WMTSCapabilities.xml");
    s
}

/// What the service does for `project` given the (lowercased) parameters `q`.
pub open spec fn wmts_plan_of(project: Seq<char>, q: Map<Seq<char>, Seq<char>>) -> Result<
    WmtsPlanView,
    TileRequestError,
> {
    match request_kind_of(q) {
        RequestKind::GetCapabilities => Ok(
            WmtsPlanView::Capabilities { path: capabilities_path_text(project) },
        ),
        RequestKind::GetTile => match tile_request_of(q) {
            Ok(t) => Ok(WmtsPlanView::Tile(t)),
            Err(e) => Err(e),
        },
        RequestKind::Other => Ok(WmtsPlanView::Unsupported),
    }
}

/// A plan's outcome as values.
pub open spec fn plan_outcome<E>(r: Result<WmtsPlan, E>) -> Result<WmtsPlanView, E> {
    match r {
        Ok(WmtsPlan::Capabilities { path }) => Ok(WmtsPlanView::Capabilities { path: path@ }),
        Ok(WmtsPlan::Tile(t)) => Ok(WmtsPlanView::Tile(t@)),
        Ok(WmtsPlan::Unsupported) => Ok(WmtsPlanView::Unsupported),
        Err(e) => Err(e),
    }
}

/// Decides what to do for `project` given the (lowercased) parameters `q`.
pub fn plan_for_params(project: &str, q: &QueryParams) -> (res: Result<WmtsPlan, TileRequestError>)
    ensures
        plan_outcome(res) == wmts_plan_of(project@, q@),
{
    match request_kind(q) {
        RequestKind::GetCapabilities => Ok(WmtsPlan::Capabilities { path: capabilities_path(project) }),
        RequestKind::GetTile => match tile_request(q) {
            Ok(t) => Ok(WmtsPlan::Tile(t)),
            Err(e) => Err(e),
        },
        RequestKind::Other => Ok(WmtsPlan::Unsupported),
    }
}

/// What the service does for a WMTS request about `project` with the raw
/// query string `query`: the query string is lowercased, then read.
pub open spec fn wmts_request_plan(project: Seq<char>, query: Seq<char>) -> Result<
    WmtsPlanView,
    WmtsError,
> {
    match query_map_of(lowercase_text(query)) {
        None => Err(WmtsError::Query(QueryError::Unreadable)),
        Some(q) => match wmts_plan_of(project, q) {
            Ok(p) => Ok(p),
            Err(e) => Err(WmtsError::Tile(e)),
        },
    }
}

/// Decides what to do for a WMTS request about `project` with the raw query
/// string `query`.
pub fn plan_wmts(project: &str, query: &str) -> (res: Result<WmtsPlan, WmtsError>)
    ensures
        plan_outcome(res) == wmts_request_plan(project@, query@),
{
    match parse_lowercased(query) {
        Err(e) => Err(WmtsError::Query(e)),
        Ok(q) => match plan_for_params(project, &q) {
            Ok(p) => Ok(p),
            Err(e) => Err(WmtsError::Tile(e)),
        },
    }
}

/// The project named by the `project` parameter of a raw query string, which
/// is lowercased before it is read.
pub fn query_project(query: &str) -> (res: Result<Option<String>, QueryError>)
    ensures
        match query_map_of(lowercase_text(query@)) {
            None => res == Err::<Option<String>, QueryError>(QueryError::Unreadable),
            Some(q) => res matches Ok(p) && match p {
                Some(v) => q.contains_key("project"@) && v@ == q["project"@],
                None => !q.contains_key("project"@),
            },
        },
{
    match parse_lowercased(query) {
        Err(e) => Err(e),
        Ok(q) => Ok(q.get("project")),
    }
}

/// The project named in a route, lowercased.
pub fn route_project(name: &str) -> (res: String)
    ensures
        res@ == lowercase_text(name@),
{
    lowercase(name)
}

} // verus!
