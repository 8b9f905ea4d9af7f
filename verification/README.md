# cxlalloc

The backing store of a heap that several hosts share through disaggregated
memory, and the compare-and-exchange by which their threads agree on it.

`src/` is a library whose contracts are proved by Verus. It decides; it performs
no input or output itself.

- `atomic`: words of shared memory, the values packed into them, and versions.
- `cas`: a location whose states name their writers, so that a thread can find
  out after a crash whether its exchange took place. `cas::interleaving` states
  what holds however the steps of threads interleave.
- `raw`: the regions of a backing store, how they come about (`raw::setup`), how
  files are mapped behind them (`raw::mapping`, `raw::region`) and removed again
  (`raw::files`), and the device that performs exchanges outside of any cache
  (`raw::device`).
- `error`, `round`, `stat`, `text`, `thread`: what the others need.

Where the operating system or the device has to act, a type of the library says
what to do next and takes the reply: `Mapping`, `Backing`, `Setup`, `Opening`,
`Startup`, `Update` and `Fault`. `app/` performs what they ask for.

Addresses and sizes are 64-bit numbers. Names of regions are kept in
`arrayvec::ArrayString`.
