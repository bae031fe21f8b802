# ripsaw

A verified library for stereoscopic H.264 video (MVC, the Multiview Video Coding
extension) and for the names under which ripped titles are filed.

- `src/mvc/`: from bytes to frames.
  - Containers: `ebml`, `mvcc`, `mkv_extract` find both views of a Matroska file
    and write one Annex B stream; `annexb`, `nal`, `rbsp` take it apart.
  - Parameter sets and headers: `bitstream`, `sps`, `pps`, `scaling`,
    `slice_header`, `ref_pic_list_modification`, `sei`.
  - Entropy decoding: `cabac` (with an encoder to state its inverse in
    `cabac_code`), `mb_header`, `mb_inter`, `residual` (likewise `residual_code`),
    `residual_ctx`, `mb_residual`.
  - Reconstruction: `transform`, `intra`, `mv`, `mc`, `inter_plan`, `inter_pred`,
    `inter_slice`, `recon`, `recon_inter`, `deblock`, `loop_filter`, `reflist`.
  - Clips: `clip` gathers access units, decodes both views and puts the pairs in
    display order; `clip::pack` lays a pair side by side.
  - `trace` reads decoder traces and finds where two of them part.
- `src/naming/`: folder and file names for Plex, Jellyfin and Kodi.
- `app/`: files, streams, serialisation and user-facing errors.
- `tests/`: examples, whole streams made bit by bit, and the laws on concrete
  values.

Every public function of `src/` has a contract that Verus proves. What holds of
several functions together is stated in proof functions named `law_*`. The trusted
items are the lane operations of the `wide` crate in `mvc/mc/portable.rs` and
`String::push` in `text.rs`.
