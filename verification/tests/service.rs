use wmts_service::capabilities::{DEGREE_UNITS, capabilities_document, layer_context, layer_for_product, layers_for_products, LayerDefinition, ServiceIdentification};
use wmts_service::clock::read_time_labels;
use wmts_service::query::QueryError;
use wmts_service::requests::{GetTile, Request};
use wmts_service::cache::{fetch_step, tile_fetch, FetchStep};
use wmts_service::pages::{fill_capabilities, leaflet_page, leaflet_target, service_domain};
use wmts_service::service::{
    capabilities_path, plan_wmts, query_project, route_project, TileRequest, TileRequestError, WmtsError, WmtsPlan,
};
use wmts_service::tiles::{getmap_url, products_api_url, tile_cache_path, wms_host, BoundingBoxText};

#[test]
fn capabilities_request_reads_the_project_document() {
    match plan_wmts("vedur", "SERVICE=WMTS&REQUEST=GetCapabilities") {
        Ok(WmtsPlan::Capabilities { path }) => assert_eq!(path, "./projects/vedur/WMTSCapabilities.xml"),
        _ => panic!("expected a capabilities plan"),
    }
    assert_eq!(capabilities_path("p"), "./projects/p/WMTSCapabilities.xml");
}

#[test]
fn tile_request_without_time() {
    match plan_wmts("vedur", "request=GetTile&layer=Modis-Green-Snow&tilematrixset=webmercator&tilematrix=03&tilecol=1&tilerow=7") {
        Ok(WmtsPlan::Tile(t)) => {
            assert_eq!(t.zoom, 3);
            assert_eq!(t.col, 1);
            assert_eq!(t.row, 7);
            assert_eq!(t.layer, "modis-green-snow");
            assert!(t.time.is_none());
        }
        _ => panic!("expected a tile plan"),
    }
}

#[test]
fn tile_request_time_is_read_after_lowercasing() {
    // The whole query string is lowercased, so the `T` between date and time
    // reaches chrono as `t`, which it does not read.
    assert!(matches!(
        plan_wmts("vedur", "request=gettile&layer=l&tilematrix=3&tilecol=1&tilerow=7&time=2022-03-14T10:40:00Z"),
        Err(WmtsError::Tile(TileRequestError::BadTime))
    ));
}

#[test]
fn tile_request_with_empty_time_uses_no_time() {
    match plan_wmts("p", "request=gettile&layer=l&tilematrix=3&tilecol=1&tilerow=7&time=") {
        Ok(WmtsPlan::Tile(t)) => assert!(t.time.is_none()),
        _ => panic!("expected a tile plan"),
    }
}

fn tile_error(query: &str) -> TileRequestError {
    match plan_wmts("p", query) {
        Err(WmtsError::Tile(e)) => e,
        _ => panic!("expected a tile error for {query}"),
    }
}

#[test]
fn tile_request_errors_in_the_order_of_the_checks() {
    assert_eq!(tile_error("request=gettile"), TileRequestError::MissingTileMatrix);
    assert_eq!(tile_error("request=gettile&tilematrix=300"), TileRequestError::BadTileMatrix);
    assert_eq!(tile_error("request=gettile&tilematrix=3"), TileRequestError::MissingTileCol);
    assert_eq!(tile_error("request=gettile&tilematrix=3&tilecol=x"), TileRequestError::BadTileCol);
    assert_eq!(tile_error("request=gettile&tilematrix=3&tilecol=1"), TileRequestError::MissingTileRow);
    assert_eq!(tile_error("request=gettile&tilematrix=3&tilecol=1&tilerow=-1"), TileRequestError::BadTileRow);
    assert_eq!(tile_error("request=gettile&tilematrix=3&tilecol=1&tilerow=7"), TileRequestError::MissingLayer);
    assert_eq!(
        tile_error("request=gettile&tilematrix=3&tilecol=1&tilerow=7&layer=l&time=%2B262143-12-31%5423:59:59-23:59"),
        TileRequestError::TimeBeyondRange
    );
    assert_eq!(tile_error("request=gettile&tilematrix=3&tilecol=1&tilerow=7&layer=l&time=soon"), TileRequestError::BadTime);
}

#[test]
fn other_requests_are_unsupported() {
    assert!(matches!(plan_wmts("p", "request=getfeatureinfo"), Ok(WmtsPlan::Unsupported)));
    assert!(matches!(plan_wmts("p", ""), Ok(WmtsPlan::Unsupported)));
}

#[test]
fn unreadable_query_is_an_error() {
    assert!(matches!(plan_wmts("p", "request[x]=gettile"), Err(WmtsError::Query(QueryError::Unreadable))));
}

#[test]
fn project_from_query_and_route() {
    assert_eq!(query_project("PROJECT=Vedur&x=1").ok().unwrap(), Some("vedur".to_string()));
    assert_eq!(query_project("x=1").ok().unwrap(), None);
    assert_eq!(route_project("Vedur"), "vedur");
}

#[test]
fn tile_cache_path_names_the_tile() {
    assert_eq!(tile_cache_path("vedur", "snow", "default", 3, 1, 7), "tilecache/vedur/snow/default/3_1_7.png");
    assert_eq!(tile_cache_path("p", "l", "20220314T104000", 12, 4095, 0), "tilecache/p/l/20220314T104000/12_4095_0.png");
}

#[test]
fn getmap_url_asks_for_the_tile() {
    let bbox = BoundingBoxText {
        minx: "-20037508.342789248".to_string(),
        miny: "0".to_string(),
        maxx: "0".to_string(),
        maxy: "20037508.342789248".to_string(),
    };
    let expected = "http://wms?map=/mapfiles/vedur/rasters.map&SERVICE=WMS&VERSION=1.3.0&REQUEST=GetMap&BBOX=-20037508.342789248,0,0,20037508.342789248&CRS=EPSG:3857&WIDTH=256&HEIGHT=256&LAYERS=snow&STYLES=,&CLASSGROUP=black&FORMAT=image/png&TRANSPARENT=true";
    assert_eq!(getmap_url("http://wms", "vedur", &bbox, "snow", None), expected);
    assert_eq!(
        getmap_url("http://wms", "vedur", &bbox, "snow", Some("2022-03-14T10:40:00")),
        format!("{expected}&time=2022-03-14T10:40:00")
    );
}

#[test]
fn wms_host_defaults_to_the_cluster_service() {
    assert_eq!(wms_host(None), "stackmap-mapserver.default.svc.cluster.local");
    assert_eq!(wms_host(Some("http://localhost:9080/cgi-bin/mapserv".to_string())), "http://localhost:9080/cgi-bin/mapserv");
}

#[test]
fn products_url_fills_host_and_project() {
    assert_eq!(products_api_url("http://stackmap.clouds.is:8080", "vedur"), "http://stackmap.clouds.is:8080/api/v1/projects/vedur/products");
}

#[test]
fn domain_prefers_the_configured_one() {
    assert_eq!(service_domain(Some("https://maps.example".to_string()), "http", "localhost:9099"), "https://maps.example");
    assert_eq!(service_domain(None, "http", "localhost:9099"), "http://localhost:9099");
}

#[test]
fn capabilities_document_gets_the_domain() {
    assert_eq!(
        fill_capabilities("<a href=\"{WMTS_DOMAIN}/x\"/><b>{WMTS_DOMAIN}</b>", "http://h"),
        "<a href=\"http://h/x\"/><b>http://h</b>"
    );
}

#[test]
fn leaflet_page_fills_layer_project_and_domain() {
    let template = "L={LAYER} P={PROJECT} D={WMTS_DOMAIN} L={LAYER}";
    assert_eq!(leaflet_page(template, "snow", "vedur", "http://h"), "L=snow P=vedur D=http://h L=snow");
}

#[test]
fn leaflet_target_needs_project_and_layer() {
    assert_eq!(leaflet_target(Some("vedur"), Some("snow")), Some(("vedur".to_string(), "snow".to_string())));
    assert_eq!(leaflet_target(Some(""), Some("snow")), None);
    assert_eq!(leaflet_target(Some("vedur"), None), None);
    assert_eq!(leaflet_target(None, None), None);
}

#[test]
fn cached_tiles_are_not_fetched() {
    assert_eq!(fetch_step(true), FetchStep::UseCached);
    assert_eq!(fetch_step(false), FetchStep::Download);
}

#[test]
fn service_identification_defaults() {
    let s = ServiceIdentification::default();
    assert_eq!(s.title, "Stackmap WMTS server");
    assert_eq!(s.service_abstract, "Generic WMTS capability report.");
    assert_eq!(s.service_type, "OGC WMTS");
    assert_eq!(s.service_type_version, "1.0.0");
    assert_eq!(s.fees, "none");
    assert_eq!(s.access_constraints, "none");
}

#[test]
fn layers_follow_the_products() {
    let d = LayerDefinition::default();
    assert_eq!((d.product.as_str(), d.title.as_str(), d.description.as_str(), d.format.as_str()), ("", "", "", "image/png"));
    assert_eq!(d.max_lat.units as f64 / DEGREE_UNITS as f64, 85.0511287798066);
    assert_eq!(d.min_lat.units as f64 / DEGREE_UNITS as f64, -85.0511287798066);
    assert_eq!(d.min_lon.units as f64 / DEGREE_UNITS as f64, -180.0);
    assert_eq!(d.max_lon.units as f64 / DEGREE_UNITS as f64, 180.0);
    let products = vec!["a".to_string(), "viirs-granule-true-color".to_string()];
    let layers = layers_for_products(&products);
    assert_eq!(layers.len(), 2);
    assert_eq!(layers[1].product, "viirs-granule-true-color");
    assert_eq!(layers[1].title, "viirs-granule-true-color");
    assert_eq!(layers[1].description, "");
    assert_eq!(layers[1].format, "image/png");
    assert_eq!(layers[1].max_lat, d.max_lat);
    assert_eq!(layers[1].min_lon, d.min_lon);
    let doc = capabilities_document("vedur", "http://h", &products);
    assert_eq!(doc.layers.len(), 2);
    assert_eq!(doc.project, "vedur");
    assert_eq!(doc.domain, "http://h");
    assert_eq!(doc.service_id.title, "Stackmap WMTS server");
    let ctx = layer_context(layer_for_product("x"));
    assert_eq!(ctx.user, "Eysteinn");
    assert_eq!(ctx.layer.product, "x");
}

#[test]
fn request_records_hold_their_fields() {
    let r = Request { request: "GetTile".to_string() };
    assert_eq!(r.request, "GetTile");
    let t = GetTile {
        request: "GetTile".to_string(),
        version: "1.0.0".to_string(),
        layer: "snow".to_string(),
        style: "default".to_string(),
        format: "image/png".to_string(),
        tilematrixset: "webmercator".to_string(),
        tilematrix: 3,
        tilerow: 7,
        tilecol: 1,
    };
    assert_eq!((t.tilematrix, t.tilerow, t.tilecol), (3, 7, 1));
}

#[test]
fn tile_fetch_names_cache_file_and_wms_request() {
    let bbox = BoundingBoxText {
        minx: "1".to_string(),
        miny: "2".to_string(),
        maxx: "3".to_string(),
        maxy: "4".to_string(),
    };
    let untimed = match plan_wmts("vedur", "request=gettile&layer=snow&tilematrix=3&tilecol=1&tilerow=7") {
        Ok(WmtsPlan::Tile(t)) => t,
        _ => panic!("expected a tile plan"),
    };
    let f = tile_fetch("vedur", &untimed, "http://wms", &bbox);
    assert_eq!(f.cache_path, "tilecache/vedur/snow/default/3_1_7.png");
    assert_eq!(f.url, getmap_url("http://wms", "vedur", &bbox, "snow", None));
    let timed = TileRequest {
        zoom: 3,
        col: 1,
        row: 7,
        layer: "snow".to_string(),
        time: Some(read_time_labels("2022-03-14T10:40:00Z").ok().unwrap()),
    };
    let g = tile_fetch("vedur", &timed, "http://wms", &bbox);
    assert_eq!(g.cache_path, "tilecache/vedur/snow/20220314T104000/3_1_7.png");
    assert!(g.url.ends_with("&time=2022-03-14T10:40:00"));
    assert_ne!(f.cache_path, g.cache_path);
}

#[test]
fn different_tiles_have_different_cache_files() {
    let a = tile_cache_path("p", "l", "default", 1, 23, 4);
    let b = tile_cache_path("p", "l", "default", 12, 3, 4);
    let c = tile_cache_path("p", "l", "default", 1, 2, 34);
    assert_ne!(a, b);
    assert_ne!(a, c);
    assert_ne!(b, c);
}

#[test]
fn capabilities_without_placeholder_are_served_as_stored() {
    let doc = "<Capabilities><Title>x</Title></Capabilities>";
    assert_eq!(fill_capabilities(doc, "http://h"), doc);
}

#[test]
fn products_url_fills_project_before_host() {
    assert_eq!(products_api_url("H", "a{host}b"), "H/api/v1/projects/aHb/products");
}

#[test]
fn cache_files_follow_the_instant_to_the_second() {
    let bbox = BoundingBoxText { minx: "0".to_string(), miny: "0".to_string(), maxx: "1".to_string(), maxy: "1".to_string() };
    let at = |time: &str| TileRequest {
        zoom: 5,
        col: 6,
        row: 7,
        layer: "snow".to_string(),
        time: Some(read_time_labels(time).ok().unwrap()),
    };
    let a = tile_fetch("p", &at("2022-03-14T10:40:00Z"), "h", &bbox).cache_path;
    let b = tile_fetch("p", &at("2022-03-14T12:40:00+02:00"), "h", &bbox).cache_path;
    let c = tile_fetch("p", &at("2022-03-14T10:40:01Z"), "h", &bbox).cache_path;
    let d = tile_fetch("p", &at("2022-03-14T10:40:00.5Z"), "h", &bbox).cache_path;
    assert_eq!(a, b);
    assert_ne!(a, c);
    assert_eq!(a, d);
}

#[test]
fn tile_request_on_chrono_first_year_is_served() {
    match plan_wmts("p", "request=gettile&layer=l&tilematrix=3&tilecol=1&tilerow=7&time=-262144-06-01%5400:00:00z") {
        Ok(WmtsPlan::Tile(t)) => assert_eq!(t.time.expect("a time").directory, "-2621440601T000000"),
        _ => panic!("expected a tile plan"),
    }
}
