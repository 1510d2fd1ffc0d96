# harness

The core of a harness for coding agents, verified with Verus, and the ordinary
Rust that runs it.

- `src/` is the library. Every function states what it gives, and the laws of the
  library are proof functions named `law_…`.
  - `model`, `ollama`: the conversation with a model, and how it is put to an
    Ollama server and read back, errors included.
  - `tool`, `tools`: the tools that a model can call. Those that touch the disk or
    start a process are split into a plan, which checks the input, and a finish,
    which takes what the outside gave.
  - `path`, `workspace`: paths as bytes, and which of them a tool may touch.
  - `ralph`: the outer loop, as a machine that is told what happened and says what
    to do next.
  - `store`, `run_record`: the event log and the snapshots of runs, and the state of
    a run.
  - `transcript`, `time`, `prompt`, `wording`, `task_spec`: transcripts, timestamps
    and clocks, the prompts, and what their fixed texts hold.
  - `test_support`: a model that follows a script.
  - `json`, `text`: values and text, with `serde_json` behind the former.
- `app/` holds the database, the network, the disk and the child processes.
- `tests/` runs the library.

What is not proved stands behind functions marked `external_body`; the comment
above each says what is claimed of the code that it calls.
