# edge-infer

Inference on the device behind one interface. Callers depend on the `Engine`
trait and need not know whether LiteRT (Android) or Core ML (iOS, macOS) is
underneath. Methods are `prefix_enc`, `prefill` and `step`; a model with a single
method, such as those for hand detection, is entered through `Method::PrefixEnc`.

## Layout

```
src/            the library, verified with Verus; it calls no native code
  lib.rs          methods, errors, configuration, the Engine trait, opening by
                  bytes or path
  tensor.rs       tensors: borrowed inputs, owned outputs
  methods.rs      values kept one per method
  text.rs         numbers and lists as text, names and paths
  backends/
    litert_sys/   models compiled by LiteRT: metadata, building, opening, buffers
    litert/       the LiteRT engine: opening, running, feedback and pipes
    coreml/       the Core ML engine, and the three models of recognition
tests/          its tests, against runtimes made of plain values
app/            the native side: C bindings, files, logging, floats
```

## How it works

Whatever needs a native runtime is a value that says which call comes next and
takes the reply:

```
let mut s = CompiledModel::new(bytes, want_gpu, num_threads);
while let Some(call) = s.call() {
    s = s.advance(make(call));
}
```

The library decides; `app/` makes the calls. Handles are numbers, and 0 is a null
pointer. So every decision is a function from state and reply to state, and what
is proved holds whatever the runtime replies.

Words in tensors lie in memory as the machine has them, and paths have the
platform's separator. An application is linked only against the runtimes that it
asks for: `app/` has LiteRT with the feature `litert` (Android), and Core ML with
the feature `coreml` (iOS, macOS).

## What is proved

* Opening a model gives back everything it made when it fails, and holds exactly
  its model, compiled model and buffers when it succeeds.
* A model that opens holds what the runtime gave, whatever it replied: every key,
  type, shape and buffer is traced to the reply that gave it, with arguments in
  the order of their numbers rather than of their names.
* A model opens where the runtime does what it is asked, on the hardware that was
  wanted. Where the GPU does not take it, the CPU does.
* A run writes the caller's bytes, runs the signature and returns what it
  computed, every output at its own index. Locks are paired. A run that fails
  carries the runtime's own status.
* Feedback and pipes move buffers and never bytes. Once a method has run, what it
  fed back is what its next call sees; a round starts from the caller's tensor. A
  piped input is what the other method produced. What the caller gives for a
  piped input is ignored from the declaration on, for one that is fed back from
  the second call on. No buffer is lost or doubled, however often an engine runs.
* A Core ML run hands over the caller's tensors with the names of their positions,
  returns every output whole and in order, and gives the native ones back once. A
  pipeline that does not open frees what it loaded.
* All of this lasts: however an engine is used, its links can be followed, its
  models keep their shapes, and no buffer comes to be in two places.

Three functions of std are taken on trust: the text that `{:?}` gives for a list
of strings, in an error message; the bytes of a word in memory, in one of the two
orders; and the path of a file in a directory.
