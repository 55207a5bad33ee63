# gpui_core

The decisions of a GPU-accelerated UI toolkit, verified with Verus: which views are drawn anew, which
layout nodes are kept from frame to frame, what a frame asks of the GPU, and what an iPad's menu,
document picker and pointer are told. What computes with floating-point numbers or talks to a system
stands in `app/`.

| Module | What it holds |
| --- | --- |
| `view` | Cached views: what they depend on, when they are reused, and what reuse repeats. |
| `layout` | The retained tree of layout nodes around `taffy`, keyed with `rustc-hash`. |
| `style`, `geometry` | Styles and lengths, and their form for the layout solver. Numbers are kept as the bits of floating-point numbers. |
| `renderer` | The Metal 4 renderer's commands for setup, frames and images, and the rules of the GPU that they keep to. |
| `ios` | The main menu, key equivalents, the document picker and the pointer. |
| `facade` | The paths that a macro's output names the toolkit's crates by. |
| `text` | Small functions on text. |

Functions that need something done outside, such as rendering a view or running the layout solver,
stop and say so; a second function takes up from there. Laws that span functions are public proof
functions whose names begin with `law_`.

`tests/` runs the library on concrete values. The outside crates that the library calls are behind
small trusted functions in `src/layout/tree.rs`, `src/layout/key.rs`, `src/renderer/readback.rs` and
`src/ios/keys.rs`.
