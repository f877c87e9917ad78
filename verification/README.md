# libgeotiles

Cut GeoTIFF rasters into web-map tiles (XYZ or TMS layout, EPSG:4326 or EPSG:3857 grids),
with the integer core of the pipeline verified by Verus.

- `src/` — the verified library: tile addresses and grid sizes (`coords`), zoom-range and
  config parsing and the precedence of flags over config over defaults (`cli`, `config`,
  `settings`, `text`), chunked TIFF reads (`tiff_io`), grouping tiles by chunk
  (`pipeline`), cropping and resampling a tile (`backend`), band repacking and tile
  encoding (`pipeline::bands`, `encode`), and the run builder (`geotiff`). Calls into
  `fast_image_resize`, `image` and std's string handling go through small trusted
  wrappers whose contracts say what those crates promise.
- `app/` — the `geotiles` program: argument parsing, the TOML config file, logging, file
  I/O, and the floating-point side of the grids (tile bounds, source windows,
  `tilemapresource.xml`).
- `tests/` — tests of the library on concrete inputs.
