# cumulus

A first-person viewer of point clouds read from PCD, PLY and CSV files. The
points are coloured by the values of their fields.

- `src/` is the library, verified with Verus: the point cloud model
  (`pointcloud`), the reading of the files (`csv_table`, `pcd_table`,
  `ply_table`) and the layout of their fields (`layout`), the choice of a
  format by extension (`format`), and the decisions of the controls
  (`controls`). Values and colours are type parameters, so the library never
  handles floating-point numbers.
- `app/` is the viewer itself: command line, file reading, the conversion of
  values to `f32` and their colours on the TURBO scale, and the rendering
  with Bevy.
- `tests/` exercises the library on concrete clouds and files.
