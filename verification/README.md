# wmts_service

A WMTS tile service for Stackmap projects, with its request logic verified
by Verus.

- `src/` is the verified library: reading query strings (serde_qs) and
  request times (chrono), parsing and writing decimal numbers, placeholder
  replacement with the semantics of `str::replace`, deciding what a WMTS
  request asks for, naming cached tiles, building WMS `GetMap` and product
  API URLs, filling the capabilities document and the Leaflet page, and the
  data of capabilities documents.
- `app/` is the actix-web server around it: routes, environment variables,
  files, the WMS server and product API over HTTP, tile extents (tile_grid,
  floating point) and handlebars rendering of capabilities XML.
- `tests/` runs the library on concrete requests.

At run time the server reads the page template `leaflet_embed.html`, the
layer template `layer.xml`, and each project's
`projects/{project}/WMTSCapabilities.xml` from its working directory, and
caches tiles under `tilecache/`.
