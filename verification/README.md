# Total viewsheds

A viewshed is all the terrain that is visible from a given point. This project computes, for every
point of a Digital Elevation Model (DEM) that has enough terrain around it:

- its total visible surface,
- its longest line of sight, and
- optionally its whole viewshed, which is saved as polar segments and can be reconstructed later.

`src/` is the library. It is verified with Verus: every function states what it returns, and the laws
that relate functions are proof functions whose names start with `law_`. It computes with whole
numbers only. Distances are counted in points of the DEM, and angles are compared by their place in
the order of single precision numbers.

| Modules | What they do |
| --- | --- |
| `dem`, `tile`, `pre_process`, `viewshed` | points of a DEM, neighbourhoods, what to look up |
| `rotator`, `rotation`, `chocolate_box`, `elevations`, `cuda` | rotations of a DEM |
| `single`, `vector`, `unrolled_los`, `cpu_two` | lines of sight |
| `cpu_kernel`, `kernel`, `ring_data`, `constants` | kernels |
| `compute`, `workers`, `vulkan`, `config`, `los_pack`, `png` | planning and compiling computations |
| `runs`, `segments`, `storage`, `worker`, `db`, `ring_storage` | what is stored |
| `vertices`, `joiner` | joining the visible segments of each angle into polygons |
| `bresenham`, `ascii` | drawing viewsheds as text |
| `integers` | whole numbers |

`app/` is the program around it: arguments, files, databases, GPUs, threads, and whatever is measured
in floating point.

`tests/` runs the library, from single functions to whole computations.
