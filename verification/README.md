# riddle

A Chamber of Secrets diary for the reMarkable 2: write on the page, pause,
and the ink sinks away; an answer is written back in joined-up cursive,
lingers, and fades.

The crate is in two parts.

- `src/` is the library, verified with Verus: the Linux `input_event`
  records and their frames (`events`), the pen reader that records strokes
  from the digitizer and the timing rules around it (`capture`), the frames
  of events that trace a path with the pen or the eraser (`pen`), the
  Hershey JHF font reader and ASCII folding (`script`), the request parts
  and the defensive reading of the model's answer (`engine`), the shaping
  of the reply text (`seance`), corner taps on the touchscreen (`touch`),
  input-device selection (`device`) and the notebook-folder guard over
  xochitl's metadata (`xochitl`). Time enters as a monotonic clock reading
  in nanoseconds.
- `app/` is the program around it: command line, configuration, device
  I/O and threads, HTTP, PNG rendering, and the floating-point geometry
  (coordinate transforms, layout, the eraser's weave and sweep).

At run time the program reads the script font from `assets/scripts.jhf`
and, unless `prompt_path` is set, the persona from `prompts/diary.txt`,
both relative to its working directory.
