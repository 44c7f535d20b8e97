//! Where a tile is cached and how it is asked for from the WMS server.

use vstd::prelude::*;
use crate::numbers::{all_digits, decimal_chars, decimal_digits, digit_value, lemma_decimal_digits, lemma_decimal_injective};
use crate::text::{replaced, replace_all, string_of};

verus! {

/// Width of a tile in pixels.
pub const TILE_WIDTH: u32 = 256;

/// Height of a tile in pixels.
pub const TILE_HEIGHT: u32 = 256;

/// `tilecache/{project}/{layer}/{timedir}/{zoom}_{col}_{row}.png`
pub open spec fn tile_cache_path_text(
    project: Seq<char>,
    layer: Seq<char>,
    timedir: Seq<char>,
    zoom: nat,
    col: nat,
    row: nat,
) -> Seq<char> {
    "tilecache/"@ + project + seq!['/'] + layer + seq!['/'] + timedir + seq!['/'] + tile_file_name(
        zoom,
        col,
        row,
    )
}

/// `{zoom}_{col}_{row}.png`
pub open spec fn tile_file_name(zoom: nat, col: nat, row: nat) -> Seq<char> {
    decimal_digits(zoom) + seq!['_'] + decimal_digits(col) + seq!['_'] + decimal_digits(row)
        + ".png"@
}

fn append_chars(s: &mut String, cs: &Vec<char>)
    ensures
        final(s)@ == old(s)@ + cs@,
{
    let t = string_of(cs);
    s.append(t.as_str());
}

fn append_decimal(s: &mut String, n: u64)
    ensures
        final(s)@ == old(s)@ + decimal_digits(n as nat),
{
    let ds = decimal_chars(n);
    append_chars(s, &ds);
}

/// The file under which the tile (`zoom`, `col`, `row`) of a layer is cached.
pub fn tile_cache_path(
    project: &str,
    layer: &str,
    timedir: &str,
    zoom: u8,
    col: u32,
    row: u32,
) -> (res: String)
    ensures
        res@ == tile_cache_path_text(
            project@,
            layer@,
            timedir@,
            zoom as nat,
            col as nat,
            row as nat,
        ),
{
    let mut s = String::from_str("tilecache/");
    s.append(project);
    s.append("/");
    s.append(layer);
    s.append("/");
    s.append(timedir);
    s.append("/");
    let ghost dir = s@;
    append_decimal(&mut s, zoom as u64);
    s.append("_");
    append_decimal(&mut s, col as u64);
    s.append("_");
    append_decimal(&mut s, row as u64);
    s.append(".png");
    proof {
        reveal_strlit("/");
        reveal_strlit("_");
    }
    assert(s@ =~= tile_cache_path_text(
        project@,
        layer@,
        timedir@,
        zoom as nat,
        col as nat,
        row as nat,
    ));
    s
}

/// The edges of a tile's extent, each already written as text.
pub struct BoundingBoxText {
    pub minx: String,
    pub miny: String,
    pub maxx: String,
    pub maxy: String,
}

/// The WMS `GetMap` request for one tile: the map file of the project, the
/// tile's bounding box in EPSG:3857, the tile size, the layer and, when a
/// time was asked for, `&time=` and that time.
pub open spec fn getmap_url_text(
    wms_host: Seq<char>,
    project: Seq<char>,
    bbox: (Seq<char>, Seq<char>, Seq<char>, Seq<char>),
    layer: Seq<char>,
    time: Option<Seq<char>>,
) -> Seq<char> {
    let base = wms_host + "?map=/mapfiles/"@ + project
        + "/rasters.map&SERVICE=WMS&VERSION=1.3.0&REQUEST=GetMap&BBOX="@ + bbox.0 + seq![',']
        + bbox.1 + seq![','] + bbox.2 + seq![','] + bbox.3 + "&CRS=EPSG:3857&WIDTH="@
        + decimal_digits(TILE_WIDTH as nat) + "&HEIGHT="@ + decimal_digits(TILE_HEIGHT as nat)
        + "&LAYERS="@ + layer + "&STYLES=,&CLASSGROUP=black&FORMAT=image/png&TRANSPARENT=true"@;
    match time {
        Some(t) => base + "&time="@ + t,
        None => base,
    }
}

/// The URL that asks the WMS server at `wms_host` for one tile of `layer`.
pub fn getmap_url(
    wms_host: &str,
    project: &str,
    bbox: &BoundingBoxText,
    layer: &str,
    time: Option<&str>,
) -> (res: String)
    ensures
        res@ == getmap_url_text(
            wms_host@,
            project@,
            (bbox.minx@, bbox.miny@, bbox.maxx@, bbox.maxy@),
            layer@,
            match time {
                Some(t) => Some(t@),
                None => None,
            },
        ),
{
    let mut s = String::from_str(wms_host);
    s.append("?map=/mapfiles/");
    s.append(project);
    s.append("/rasters.map&SERVICE=WMS&VERSION=1.3.0&REQUEST=GetMap&BBOX=");
    s.append(bbox.minx.as_str());
    s.append(",");
    s.append(bbox.miny.as_str());
    s.append(",");
    s.append(bbox.maxx.as_str());
    s.append(",");
    s.append(bbox.maxy.as_str());
    s.append("&CRS=EPSG:3857&WIDTH=");
    append_decimal(&mut s, TILE_WIDTH as u64);
    s.append("&HEIGHT=");
    append_decimal(&mut s, TILE_HEIGHT as u64);
    s.append("&LAYERS=");
    s.append(layer);
    s.append("&STYLES=,&CLASSGROUP=black&FORMAT=image/png&TRANSPARENT=true");
    proof {
        reveal_strlit(",");
    }
    match time {
        Some(t) => {
            s.append("&time=");
            s.append(t);
        },
        None => {},
    }
    s
}

/// The GetMap URL asks the WMS server for the tile itself: after the host and
/// the project's map file, the bounding box lists the tile's edges in the
/// order minx, miny, maxx, maxy, in EPSG:3857, for an image 256 pixels wide
/// and 256 high of the layer; a time, when one is given, ends the URL.
pub proof fn lemma_getmap_url_asks_for_the_tile(
    wms_host: Seq<char>,
    project: Seq<char>,
    minx: Seq<char>,
    miny: Seq<char>,
    maxx: Seq<char>,
    maxy: Seq<char>,
    layer: Seq<char>,
    time: Option<Seq<char>>,
)
    ensures
        getmap_url_text(wms_host, project, (minx, miny, maxx, maxy), layer, time) == wms_host
            + "?map=/mapfiles/"@ + project
            + "/rasters.map&SERVICE=WMS&VERSION=1.3.0&REQUEST=GetMap&BBOX="@ + minx + seq![',']
            + miny + seq![','] + maxx + seq![','] + maxy + "&CRS=EPSG:3857&WIDTH="@ + seq![
            '2',
            '5',
            '6',
        ] + "&HEIGHT="@ + seq!['2', '5', '6'] + "&LAYERS="@ + layer
            + "&STYLES=,&CLASSGROUP=black&FORMAT=image/png&TRANSPARENT=true"@ + match time {
            Some(t) => "&time="@ + t,
            None => Seq::<char>::empty(),
        },
{
    assert(decimal_digits(2) == seq!['2']);
    assert(decimal_digits(25) =~= seq!['2', '5']);
    assert(decimal_digits(256) =~= seq!['2', '5', '6']);
    let u = getmap_url_text(wms_host, project, (minx, miny, maxx, maxy), layer, time);
    if time is None {
        assert(u + Seq::<char>::empty() =~= u);
    }
}

/// The WMS server: the one that the environment names, else the service's
/// default host.
pub open spec fn wms_host_text(configured: Option<Seq<char>>) -> Seq<char> {
    match configured {
        Some(h) => h,
        None => "stackmap-mapserver.default.svc.cluster.local"@,
    }
}

/// The WMS server to ask, given the value of `WMS_HOST` if it is set.
pub fn wms_host(configured: Option<String>) -> (res: String)
    ensures
        res@ == wms_host_text(
            match configured {
                Some(h) => Some(h@),
                None => None,
            },
        ),
{
    match configured {
        Some(h) => h,
        None => String::from_str("stackmap-mapserver.default.svc.cluster.local"),
    }
}

/// The product listing URL: `{host}` and `{project}` of the path template
/// filled in, `{project}` first.
pub open spec fn products_api_url_text(host: Seq<char>, project: Seq<char>) -> Seq<char> {
    replaced(
        replaced("{host}/api/v1/projects/{project}/products"@, "{project}"@, project),
        "{host}"@,
        host,
    )
}

/// The URL at which the API at `host` lists the products of `project`.
pub fn products_api_url(host: &str, project: &str) -> (res: String)
    ensures
        res@ == products_api_url_text(host@, project@),
{
    let url = replace_all("{host}/api/v1/projects/{project}/products", "{project}", project);
    replace_all(url.as_str(), "{host}", host)
}

/// `s` holds no `c`.
pub open spec fn lacks(s: Seq<char>, c: char) -> bool {
    forall|i: int| 0 <= i < s.len() ==> s[i] != c
}

/// Decimal text holds nothing but digits: no `_`, no `/`.
pub proof fn lemma_digits_lack(ds: Seq<char>, c: char)
    requires
        all_digits(ds),
        digit_value(c) is None,
    ensures
        lacks(ds, c),
{
    assert forall|i: int| 0 <= i < ds.len() implies ds[i] != c by {
        assert(digit_value(ds[i]) is Some);
    }
}

/// Two texts without `sep`, each followed by `sep` and more, split back into
/// the same parts.
proof fn lemma_split_at(a: Seq<char>, b: Seq<char>, c: Seq<char>, d: Seq<char>, sep: char)
    requires
        lacks(a, sep),
        lacks(c, sep),
        a + seq![sep] + b == c + seq![sep] + d,
    ensures
        a == c,
        b == d,
{
    let x = a + seq![sep] + b;
    let y = c + seq![sep] + d;
    if a.len() < c.len() {
        assert(x[a.len() as int] == sep);
        assert(y[a.len() as int] == c[a.len() as int]);
    } else if c.len() < a.len() {
        assert(y[c.len() as int] == sep);
        assert(x[c.len() as int] == a[c.len() as int]);
    }
    assert(a =~= x.take(a.len() as int));
    assert(c =~= y.take(c.len() as int));
    assert(b =~= x.skip(a.len() as int + 1));
    assert(d =~= y.skip(c.len() as int + 1));
}

/// The cache path of a tile determines the tile: for one project and layer,
/// two tiles whose time directories hold no `/` share a cache file only when
/// they have the same time directory, zoom level, column and row.
pub proof fn lemma_tile_cache_path_determines_tile(
    project: Seq<char>,
    layer: Seq<char>,
    t1: Seq<char>,
    z1: nat,
    c1: nat,
    r1: nat,
    t2: Seq<char>,
    z2: nat,
    c2: nat,
    r2: nat,
)
    requires
        lacks(t1, '/'),
        lacks(t2, '/'),
        tile_cache_path_text(project, layer, t1, z1, c1, r1) == tile_cache_path_text(
            project,
            layer,
            t2,
            z2,
            c2,
            r2,
        ),
    ensures
        t1 == t2,
        z1 == z2,
        c1 == c2,
        r1 == r2,
{
    let dir = "tilecache/"@ + project + seq!['/'] + layer + seq!['/'];
    let f1 = tile_file_name(z1, c1, r1);
    let f2 = tile_file_name(z2, c2, r2);
    let rest1 = t1 + seq!['/'] + f1;
    let rest2 = t2 + seq!['/'] + f2;
    assert(tile_cache_path_text(project, layer, t1, z1, c1, r1) =~= dir + rest1);
    assert(tile_cache_path_text(project, layer, t2, z2, c2, r2) =~= dir + rest2);
    assert((dir + rest1).skip(dir.len() as int) =~= rest1);
    assert((dir + rest2).skip(dir.len() as int) =~= rest2);
    lemma_split_at(t1, f1, t2, f2, '/');
    let png = ".png"@;
    let g1 = decimal_digits(z1) + seq!['_'] + decimal_digits(c1) + seq!['_'] + decimal_digits(r1);
    let g2 = decimal_digits(z2) + seq!['_'] + decimal_digits(c2) + seq!['_'] + decimal_digits(r2);
    assert(f1 =~= g1 + png);
    assert(f2 =~= g2 + png);
    assert(g1 =~= f1.take(f1.len() - png.len()));
    assert(g2 =~= f2.take(f2.len() - png.len()));
    lemma_decimal_digits(z1);
    lemma_decimal_digits(z2);
    lemma_decimal_digits(c1);
    lemma_decimal_digits(c2);
    lemma_digits_lack(decimal_digits(z1), '_');
    lemma_digits_lack(decimal_digits(z2), '_');
    lemma_digits_lack(decimal_digits(c1), '_');
    lemma_digits_lack(decimal_digits(c2), '_');
    let tail1 = decimal_digits(c1) + seq!['_'] + decimal_digits(r1);
    let tail2 = decimal_digits(c2) + seq!['_'] + decimal_digits(r2);
    assert(g1 =~= decimal_digits(z1) + seq!['_'] + tail1);
    assert(g2 =~= decimal_digits(z2) + seq!['_'] + tail2);
    lemma_split_at(decimal_digits(z1), tail1, decimal_digits(z2), tail2, '_');
    lemma_split_at(decimal_digits(c1), decimal_digits(r1), decimal_digits(c2), decimal_digits(r2), '_');
    lemma_decimal_injective(z1, z2);
    lemma_decimal_injective(c1, c2);
    lemma_decimal_injective(r1, r2);
}

} // verus!
