# mlx_transforms

Function transforms on arrays: evaluation, Jacobian-vector and vector-Jacobian products, values
with gradients, and gradient checkpointing. The arrays and the numerical work belong to an engine,
MLX; this library decides what is asked of it and what becomes of its answers.

A transform is a session. `Step::Perform` holds the next engine call and the session that takes
its answer; `Step::Done` holds the outcome. `src/` is verified with Verus and calls nothing
outside; `app/` performs the calls through MLX's C interface and offers the transforms as plain
functions.

| module | what it holds |
| --- | --- |
| `engine` | requests to the engine, its answers, and what makes an answer truthful |
| `step` | the steps of a session, and runs of steps |
| `guard`, `error` | status codes, exceptions, and the slot for a closure's own error |
| `closure` | closures that the engine calls back |
| `vector` | packing arrays into a vector, and reading them back |
| `eval`, `params` | evaluation of arrays and of nested module parameters |
| `product` | products with a Jacobian, and values with gradients |
| `checkpoint` | checkpointed functions |
| `history`, `eval_laws`, `product_laws`, `checkpoint_laws` | laws of whole runs |
