# stage_runtime

The verified core of a headless stage runtime: the parts of rendering a web
stage that are rules and text processing, written in Verus with their
contracts proved.

- `content`, `html`: content-directory paths (percent-decoding, `..`
  rejection, sidecar URLs) and the scripts and stylesheet links of a page.
- `sheet`, `css`, `selector`, `media`, `decimal`: the stylesheet grammar
  (comments, strings, escapes, `url(..)`, nested blocks, at-rules), rules and
  declarations, selectors and their specificity, media queries against the
  1280×720 viewport with lengths compared exactly as `f32` values.
- `matching`, `cascade`, `tree`, `styled`: selector matching over a
  document model, the order in which declarations reach an element, the
  depth-bounded walks that collect `<style>` text and find the `html` and
  `body` elements, the styled tree (inheritance, tag defaults, cascade,
  pseudo-elements), and which blocks lay their inline children out as one
  line and how they align them.
- `style`, `tags`, `keywords`, `values`, `vars`, `calc`: keyword-valued
  properties and the defaults of tags, custom properties with their limits,
  `var()` resolution, value splitting, and the structure of lengths and
  `calc()` expressions (their `f32` arithmetic is left to the caller).
- `kv`, `json`, `storage`: the persistent key-value store, its limits, the
  JSON text it is written as and read back from, how a script's
  `localStorage` changes are written back into it and what a starting script
  restores from it, and the scripts that hand events to the page (refusing
  text that is not JSON).
- `net`, `requests`: decisions about `fetch()` and WebSocket requests: what
  a URL asks for, data URIs, content types, which requests may start,
  response size caps, what an incoming frame becomes, which sockets still
  take messages, the bytes of a `data:` image.
- `console`: the buffer of a script's console messages (arguments joined by
  spaces, failed assertions, caps on messages and bytes).
- `frame`, `canvas`: decisions of the render step (image loads, full render
  or restyle, the layers of a frame), the opaque screenshot, image cropping,
  path-command names, the bounded stack of saved canvas states and the
  registry of decoded images.

`app/` holds what reads and writes files, and what computes on
floating-point numbers: the audio compressor and CSS lengths in pixels.
