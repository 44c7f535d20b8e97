//! The data of a WMTS capabilities document: who serves it and which layers
//! it offers.

use vstd::prelude::*;

verus! {

/// The service identification section of a capabilities document.
pub struct ServiceIdentification {
    pub title: String,
    pub service_abstract: String,
    pub service_type: String,
    pub service_type_version: String,
    pub fees: String,
    pub access_constraints: String,
}

impl Default for ServiceIdentification {
    /// The identification of the Stackmap WMTS server.
    fn default() -> (res: Self)
        ensures
            res.title@ == "Stackmap WMTS server"@,
            res.service_abstract@ == "Generic WMTS capability report."@,
            res.service_type@ == "OGC WMTS"@,
            res.service_type_version@ == "1.0.0"@,
            res.fees@ == "none"@,
            res.access_constraints@ == "none"@,
    {
        ServiceIdentification {
            title: String::from_str("Stackmap WMTS server"),
            service_abstract: String::from_str("Generic WMTS capability report."),
            service_type: String::from_str("OGC WMTS"),
            service_type_version: String::from_str("1.0.0"),
            fees: String::from_str("none"),
            access_constraints: String::from_str("none"),
        }
    }
}

/// An angle in degrees, held exactly as a whole number of 10^-13 degrees
/// (the precision of the bounds the service gives its layers).
#[derive(Clone, Copy, Debug, PartialEq, Eq, Structural)]
pub struct Degrees {
    pub units: i64,
}

/// Degrees per unit of `Degrees::units`, as a divisor.
pub const DEGREE_UNITS: i64 = 10_000_000_000_000;

/// The latitude limit of the Web Mercator projection, 85.0511287798066 degrees.
pub const WEB_MERCATOR_LAT_UNITS: i64 = 850_511_287_798_066;

/// 180 degrees.
pub const HALF_TURN_UNITS: i64 = 1_800_000_000_000_000;

/// One layer of a capabilities document.
pub struct LayerDefinition {
    pub product: String,
    pub title: String,
    pub description: String,
    pub format: String,
    pub min_lat: Degrees,
    pub max_lat: Degrees,
    pub min_lon: Degrees,
    pub max_lon: Degrees,
}

/// The bounds of a layer cover the whole Web Mercator world.
pub open spec fn has_world_bounds(l: LayerDefinition) -> bool {
    &&& l.min_lat.units == -WEB_MERCATOR_LAT_UNITS
    &&& l.max_lat.units == WEB_MERCATOR_LAT_UNITS
    &&& l.min_lon.units == -HALF_TURN_UNITS
    &&& l.max_lon.units == HALF_TURN_UNITS
}

impl Default for LayerDefinition {
    /// A layer with no product, title or description, served as PNG, over the
    /// whole Web Mercator world.
    fn default() -> (res: Self)
        ensures
            res.product@ == Seq::<char>::empty(),
            res.title@ == Seq::<char>::empty(),
            res.description@ == Seq::<char>::empty(),
            res.format@ == "image/png"@,
            has_world_bounds(res),
    {
        LayerDefinition {
            product: String::new(),
            title: String::new(),
            description: String::new(),
            format: String::from_str("image/png"),
            min_lat: Degrees { units: -WEB_MERCATOR_LAT_UNITS },
            max_lat: Degrees { units: WEB_MERCATOR_LAT_UNITS },
            min_lon: Degrees { units: -HALF_TURN_UNITS },
            max_lon: Degrees { units: HALF_TURN_UNITS },
        }
    }
}

/// The layer that shows `product`: titled by the product's name, with no
/// description, the other fields as by default.
pub open spec fn is_product_layer(l: LayerDefinition, product: Seq<char>) -> bool {
    &&& l.product@ == product
    &&& l.title@ == product
    &&& l.description@ == Seq::<char>::empty()
    &&& l.format@ == "image/png"@
    &&& has_world_bounds(l)
}

/// The layer that shows `product`.
pub fn layer_for_product(product: &str) -> (res: LayerDefinition)
    ensures
        is_product_layer(res, product@),
{
    let d = LayerDefinition::default();
    LayerDefinition {
        product: String::from_str(product),
        title: String::from_str(product),
        description: String::new(),
        format: d.format,
        min_lat: d.min_lat,
        max_lat: d.max_lat,
        min_lon: d.min_lon,
        max_lon: d.max_lon,
    }
}

/// One layer for each product, in the order of the products.
pub fn layers_for_products(products: &Vec<String>) -> (res: Vec<LayerDefinition>)
    ensures
        res@.len() == products@.len(),
        forall|i: int| 0 <= i < products@.len() ==> is_product_layer(#[trigger] res@[i], products@[i]@),
{
    let mut layers: Vec<LayerDefinition> = Vec::new();
    let n = products.len();
    let mut i: usize = 0;
    while i < n
        invariant
            n == products@.len(),
            i <= n,
            layers@.len() == i,
            forall|j: int| 0 <= j < i ==> is_product_layer(#[trigger] layers@[j], products@[j]@),
        decreases n - i,
    {
        layers.push(layer_for_product(products[i].as_str()));
        i = i + 1;
    }
    layers
}

/// The data of a project's capabilities document.
pub struct WmtsDocument {
    pub service_id: ServiceIdentification,
    pub layers: Vec<LayerDefinition>,
    pub project: String,
    pub domain: String,
}

/// The capabilities data of `project` served at `domain`, with one layer for
/// each of its products and the default service identification.
pub fn capabilities_document(project: &str, domain: &str, products: &Vec<String>) -> (res: WmtsDocument)
    ensures
        res.project@ == project@,
        res.domain@ == domain@,
        res.layers@.len() == products@.len(),
        forall|i: int| 0 <= i < products@.len() ==> is_product_layer(#[trigger] res.layers@[i], products@[i]@),
        res.service_id.title@ == "Stackmap WMTS server"@,
        res.service_id.service_abstract@ == "Generic WMTS capability report."@,
        res.service_id.service_type@ == "OGC WMTS"@,
        res.service_id.service_type_version@ == "1.0.0"@,
        res.service_id.fees@ == "none"@,
        res.service_id.access_constraints@ == "none"@,
{
    WmtsDocument {
        service_id: ServiceIdentification::default(),
        layers: layers_for_products(products),
        project: String::from_str(project),
        domain: String::from_str(domain),
    }
}

/// The values a layer template is rendered with: the layer's fields and the
/// name of the user.
pub struct LayerContext {
    pub layer: LayerDefinition,
    pub user: String,
}

/// The template values for `layer`; the user is always `Eysteinn`.
pub fn layer_context(layer: LayerDefinition) -> (res: LayerContext)
    ensures
        res.layer == layer,
        res.user@ == "Eysteinn"@,
{
    LayerContext { layer, user: String::from_str("Eysteinn") }
}

} // verus!
