# deepseek_v2_lite

The host side of a two-rank, expert-parallel DeepSeek-V2-Lite engine, verified
with Verus.

`src/` holds the verified library:

- `config` - the model's sizes and what follows from them
- `rows` - flat buffers seen as rows
- `host_ops` - the key-value cache, rotary embedding, query and key building,
  normalisation of the compressed key-value projection
- `attention` - causal attention over the cache
- `route` - which experts each token visits
- `mixture` - how their outputs are added up
- `exact` - what is determined where the arithmetic is a function
- `ep` - which rank owns which expert
- `model` - the weights of each rank: what they are called and how a routed
  expert is found among them
- `loading` - how the weights of each rank are put together from their tensors
- `transfer` - hidden states on their way between host and device
- `runtime` - greedy generation as a state machine, with its checks and report
- `digest` - the fingerprint of the generated tokens
- `engine` - load options, and who closes and joins what when handles go away
- `error`, `text` - errors and their messages

Arithmetic on entries and operations on device tensors are parameters of the
library: `app/` supplies them, with floating point and weight files, and the
tests supply integers and strings too. `app/` also drives the device runtime and
hands requests to the engine thread.
