# orbital_elements

An interactive 3D diagram of the orbital elements (Earth wireframe, equatorial
and orbital planes, line of nodes, RAAN and inclination arcs) rendered with
three-d.

- `src/` is the verified library: the vertex plan of the globe wireframe
  (`globe`), the segment plan of the dashed orbit (`dashes`), polyline
  segmenting and filtering (`strip`), the pointer-drag scan of the render loop
  (`drag`) and the packing of label screen positions (`labels`).
- `app/main.rs` is the program: window, GPU objects, float geometry and the
  render loop, built on the library's plans.
- `tests/` runs the library on concrete values.
