# rt

A small ray tracer. `src/` is the verified library:

- `scene_file`: the kinds of objects and materials a scene file holds, with
  their display names; the render settings stored with a scene; how a scene
  is assembled from its objects (object `i` uses material `i`); and the
  kinds of the demo scene's objects;
- `renderer::bvh`: the step the bounding-volume hierarchy build takes by the
  number of objects, the order in which it lays objects out along its split
  axis (a stable sort by integer key, proved the only such order) and the
  two halves it splits them into;
- `renderer::camera`: the order in which a render produces the pixels of an
  image, proved row-major, top to bottom, holding every pixel exactly once;
- `gui`: the edits of the object list, the pixel count of a render job and
  the RGBA buffer that is displayed.

`app/` is the program around it: the command line, the GUI widgets, scene
files on disk, and all of the floating-point work (geometry, materials,
colours, bounding boxes and the camera), which the library's verified code
cannot hold. It turns float coordinates into order-preserving integer keys
before asking the library for the BVH order.
