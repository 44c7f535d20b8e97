//! The tile cache: which file holds a requested tile, where it is fetched
//! from, and when it is fetched at all.

use vstd::prelude::*;
use crate::clock::{directory_time_text, lemma_directory_time_text_injective, lemma_zero_padded, query_time_text, shown_second, two_digits, utc_reading, year_text, zero_padded, UtcFields};
use crate::numbers::digit_value;
use crate::numbers::{decimal_digits, lemma_decimal_digits};
use crate::service::{tile_request_of, value_or_empty, TileRequest};
use crate::tiles::{getmap_url, getmap_url_text, lacks, lemma_digits_lack, lemma_tile_cache_path_determines_tile, tile_cache_path, tile_cache_path_text, BoundingBoxText};

verus! {

/// The directory of the tile cache for the time of a request: the
/// `%Y%m%dT%H%M%S` text of the time, or `default` when none was asked for.
pub open spec fn time_directory_text(time: Option<(Seq<char>, Seq<char>)>) -> Seq<char> {
    match time {
        Some(t) => t.1,
        None => "default"@,
    }
}

/// The time of a request as the WMS server is asked for it.
pub open spec fn query_time_of(time: Option<(Seq<char>, Seq<char>)>) -> Option<Seq<char>> {
    match time {
        Some(t) => Some(t.0),
        None => None,
    }
}

/// Where a tile is cached and where it is fetched from.
pub struct TileFetch {
    pub cache_path: String,
    pub url: String,
}

/// The cache file and the WMS request of a tile of `project`, given the WMS
/// server and the tile's bounding box.
pub fn tile_fetch(project: &str, tile: &TileRequest, wms_host: &str, bbox: &BoundingBoxText) -> (res: TileFetch)
    ensures
        res.cache_path@ == tile_cache_path_text(
            project@,
            tile.layer@,
            time_directory_text(tile@.time),
            tile.zoom as nat,
            tile.col as nat,
            tile.row as nat,
        ),
        res.url@ == getmap_url_text(
            wms_host@,
            project@,
            (bbox.minx@, bbox.miny@, bbox.maxx@, bbox.maxy@),
            tile.layer@,
            query_time_of(tile@.time),
        ),
{
    match &tile.time {
        Some(labels) => TileFetch {
            cache_path: tile_cache_path(
                project,
                tile.layer.as_str(),
                labels.directory.as_str(),
                tile.zoom,
                tile.col,
                tile.row,
            ),
            url: getmap_url(
                wms_host,
                project,
                bbox,
                tile.layer.as_str(),
                Some(labels.query_time.as_str()),
            ),
        },
        None => TileFetch {
            cache_path: tile_cache_path(project, tile.layer.as_str(), "default", tile.zoom, tile.col, tile.row),
            url: getmap_url(wms_host, project, bbox, tile.layer.as_str(), None),
        },
    }
}

proof fn lemma_concat_lacks(a: Seq<char>, b: Seq<char>, c: char)
    requires
        lacks(a, c),
        lacks(b, c),
    ensures
        lacks(a + b, c),
{
    assert forall|i: int| 0 <= i < (a + b).len() implies (a + b)[i] != c by {
        if i >= a.len() {
            assert((a + b)[i] == b[i - a.len()]);
        }
    }
}

proof fn lemma_padded_lacks_slash(n: nat, width: nat)
    ensures
        lacks(zero_padded(decimal_digits(n), width), '/'),
{
    lemma_decimal_digits(n);
    lemma_digits_lack(decimal_digits(n), '/');
    let ds = decimal_digits(n);
    if ds.len() < width {
        let zeros = Seq::new((width - ds.len()) as nat, |i: int| '0');
        assert(lacks(zeros, '/'));
        lemma_concat_lacks(zeros, ds, '/');
    }
}

/// The time directory of a request holds no `/`.
proof fn lemma_time_directory_lacks_slash(time: Option<UtcFields>)
    ensures
        lacks(
            time_directory_text(
                match time {
                    Some(f) => Some((query_time_text(f), directory_time_text(f))),
                    None => None,
                },
            ),
            '/',
        ),
{
    match time {
        None => {
            reveal_strlit("default");
        },
        Some(f) => {
            let y = f.year as int;
            if 0 <= y < 10000 {
                lemma_padded_lacks_slash(y as nat, 4);
            } else if y < 0 {
                lemma_padded_lacks_slash((-y) as nat, 4);
                lemma_concat_lacks(seq!['-'], zero_padded(decimal_digits((-y) as nat), 4), '/');
            } else {
                lemma_padded_lacks_slash(y as nat, 4);
                lemma_concat_lacks(seq!['+'], zero_padded(decimal_digits(y as nat), 4), '/');
            }
            let a = year_text(y);
            lemma_padded_lacks_slash(f.month as nat, 2);
            lemma_padded_lacks_slash(f.day as nat, 2);
            lemma_padded_lacks_slash(f.hour as nat, 2);
            lemma_padded_lacks_slash(f.minute as nat, 2);
            lemma_padded_lacks_slash(crate::clock::shown_second(f), 2);
            let b = a + two_digits(f.month as nat);
            lemma_concat_lacks(a, two_digits(f.month as nat), '/');
            let c = b + two_digits(f.day as nat);
            lemma_concat_lacks(b, two_digits(f.day as nat), '/');
            let d = c + seq!['T'];
            lemma_concat_lacks(c, seq!['T'], '/');
            let e = d + two_digits(f.hour as nat);
            lemma_concat_lacks(d, two_digits(f.hour as nat), '/');
            let g = e + two_digits(f.minute as nat);
            lemma_concat_lacks(e, two_digits(f.minute as nat), '/');
            lemma_concat_lacks(g, two_digits(crate::clock::shown_second(f)), '/');
        },
    }
}

/// Two tile requests for one project and layer are cached in the same file
/// only when they ask for the same tile (zoom level, column, row) at the same
/// time directory.
pub proof fn lemma_tile_requests_share_cache_file_only_for_same_tile(
    project: Seq<char>,
    q1: Map<Seq<char>, Seq<char>>,
    q2: Map<Seq<char>, Seq<char>>,
)
    requires
        tile_request_of(q1) is Ok,
        tile_request_of(q2) is Ok,
        tile_request_of(q1)->Ok_0.layer == tile_request_of(q2)->Ok_0.layer,
        tile_cache_path_text(
            project,
            tile_request_of(q1)->Ok_0.layer,
            time_directory_text(tile_request_of(q1)->Ok_0.time),
            tile_request_of(q1)->Ok_0.zoom,
            tile_request_of(q1)->Ok_0.col,
            tile_request_of(q1)->Ok_0.row,
        ) == tile_cache_path_text(
            project,
            tile_request_of(q2)->Ok_0.layer,
            time_directory_text(tile_request_of(q2)->Ok_0.time),
            tile_request_of(q2)->Ok_0.zoom,
            tile_request_of(q2)->Ok_0.col,
            tile_request_of(q2)->Ok_0.row,
        ),
    ensures
        tile_request_of(q1)->Ok_0.zoom == tile_request_of(q2)->Ok_0.zoom,
        tile_request_of(q1)->Ok_0.col == tile_request_of(q2)->Ok_0.col,
        tile_request_of(q1)->Ok_0.row == tile_request_of(q2)->Ok_0.row,
        time_directory_text(tile_request_of(q1)->Ok_0.time) == time_directory_text(
            tile_request_of(q2)->Ok_0.time,
        ),
{
    let r1 = tile_request_of(q1)->Ok_0;
    let r2 = tile_request_of(q2)->Ok_0;
    let t1 = value_or_empty(q1, "time"@);
    let t2 = value_or_empty(q2, "time"@);
    lemma_time_directory_lacks_slash(if t1.len() == 0 { None } else { utc_reading(t1) });
    lemma_time_directory_lacks_slash(if t2.len() == 0 { None } else { utc_reading(t2) });
    lemma_tile_cache_path_determines_tile(
        project,
        r1.layer,
        time_directory_text(r1.time),
        r1.zoom,
        r1.col,
        r1.row,
        time_directory_text(r2.time),
        r2.zoom,
        r2.col,
        r2.row,
    );
}

/// The cache directory for a time read by chrono, or for no time.
pub open spec fn time_directory_of(time: Option<UtcFields>) -> Seq<char> {
    match time {
        Some(f) => directory_time_text(f),
        None => "default"@,
    }
}

/// No time directory of an instant is the directory of untimed tiles.
proof fn lemma_default_is_no_time_directory(f: UtcFields)
    ensures
        directory_time_text(f) != "default"@,
{
    reveal_strlit("default");
    let y = f.year as int;
    let n: nat = if y < 0 { (-y) as nat } else { y as nat };
    lemma_zero_padded(n, 4);
    let p = zero_padded(decimal_digits(n), 4);
    assert(digit_value(p[0]) is Some);
    let t = directory_time_text(f);
    if 0 <= y < 10000 {
        assert(t[0] == p[0]);
    } else {
        assert(t[0] == year_text(y)[0]);
    }
    assert(digit_value('d') is None);
}

/// The cache path of a tile determines the tile and the second it was asked
/// for: for one project and layer, two tiles, each at an instant read by
/// chrono (within the ranges chrono documents) or at no time, share a cache
/// file only when they are the same tile at the same second, or both untimed.
pub proof fn lemma_tile_cache_path_determines_instant(
    project: Seq<char>,
    layer: Seq<char>,
    time1: Option<UtcFields>,
    z1: nat,
    c1: nat,
    r1: nat,
    time2: Option<UtcFields>,
    z2: nat,
    c2: nat,
    r2: nat,
)
    requires
        time1 matches Some(f) ==> f.in_range(),
        time2 matches Some(g) ==> g.in_range(),
        tile_cache_path_text(project, layer, time_directory_of(time1), z1, c1, r1)
            == tile_cache_path_text(project, layer, time_directory_of(time2), z2, c2, r2),
    ensures
        z1 == z2,
        c1 == c2,
        r1 == r2,
        time1 is Some <==> time2 is Some,
        time1 matches Some(f) ==> time2 matches Some(g) && f.year == g.year && f.month == g.month
            && f.day == g.day && f.hour == g.hour && f.minute == g.minute && shown_second(f)
            == shown_second(g),
{
    let l1 = match time1 {
        Some(f) => Some((query_time_text(f), directory_time_text(f))),
        None => None,
    };
    let l2 = match time2 {
        Some(f) => Some((query_time_text(f), directory_time_text(f))),
        None => None,
    };
    lemma_time_directory_lacks_slash(time1);
    lemma_time_directory_lacks_slash(time2);
    assert(time_directory_text(l1) == time_directory_of(time1));
    assert(time_directory_text(l2) == time_directory_of(time2));
    lemma_tile_cache_path_determines_tile(
        project,
        layer,
        time_directory_of(time1),
        z1,
        c1,
        r1,
        time_directory_of(time2),
        z2,
        c2,
        r2,
    );
    match (time1, time2) {
        (Some(f), Some(g)) => {
            lemma_directory_time_text_injective(f, g);
        },
        (Some(f), None) => {
            lemma_default_is_no_time_directory(f);
        },
        (None, Some(g)) => {
            lemma_default_is_no_time_directory(g);
        },
        (None, None) => {},
    }
}

/// What to do for a tile before it can be sent.
#[derive(Clone, Copy, Debug, PartialEq, Eq, Structural)]
pub enum FetchStep {
    /// The tile is in the cache: send the cached file.
    UseCached,
    /// Fetch the tile from the WMS server into the cache, then send it.
    Download,
}

/// A cached tile is sent as it is; any other is fetched first.
pub fn fetch_step(cached: bool) -> (res: FetchStep)
    ensures
        res == (if cached { FetchStep::UseCached } else { FetchStep::Download }),
{
    if cached {
        FetchStep::UseCached
    } else {
        FetchStep::Download
    }
}

} // verus!
