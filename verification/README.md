# tilegen

Generates Google Maps tiles from an image.

    tilegen --input map.png --output tiles --max-zoom 5

At zoom level `z` the image, padded to a square with the background colour, is cut into `2^z` by
`2^z` tiles of 256 by 256 pixels, written as `tiles/<zoom>/<column>/<row>.<extension>` in WebP, JPEG
or AVIF.

- `src/` is the verified library: colours, rasters, padding and scaling, the tile grid, paths,
  encoding, the order of the steps, and the sizes and schedules of the GPU renderer. `src/laws.rs`
  holds what is proved of several of them together.
- `app/` is the program: the command line, files, progress bars and the GPU.
- `tests/` runs the library against the standard library and the crates that it calls.
