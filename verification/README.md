# blend_render

A server that takes a Blender scene from a browser, in chunks, and renders it
with one Blender process or with several, one for each GPU.

`src/` is a library, verified with Verus: what the server decides and computes
stands there, with a contract that says exactly what it does.

- `frame_partition`: the frames of an animation, split over processes.
- `frame_range`: which frames are to be rendered.
- `render_plan`: the checks of a request, one process or several, and the
  command line of each.
- `parallel_job`: what each of several processes is doing, the one retry of a
  process that failed, stopping, and the end of the whole.
- `stop`: the processes that run, and the answer to a request to stop them.
- `upload`, `chunks`, `archive`, `blend_search`: a scene on its way to the disk.
- `upload_run`: all the requests of one upload, from the first to the last.
- `app_state`, `json`: the state of the server and its JSON form.
- `frontend`, `reply`: pages and answers.
- `text`, `decimal`: strings and numbers.

Laws that relate several functions are public proof functions beside them. What
the library has from other crates and from the standard library stands behind
small functions marked `external_body` and one `assume_specification`, each with
a comment that says what is relied on.

`app/` is the server around it: routes, sockets, processes, disk and database.
`tests/` runs the library.
