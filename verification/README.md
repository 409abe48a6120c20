# Overseer

Task orchestration for coding agents: a three-level hierarchy of milestones, tasks and subtasks,
dependencies between tasks, learnings that travel upwards when tasks are completed, and a workflow
that keeps tasks and branches in step.

The library under `src/` is written in Verus. Every function in it is verified against its
contract, but for a few that hand a call to another crate or to the standard library: the functions
marked `external_body` in `id`, `time`, `text`, `output::paint` and `vcs::jj`, and the specification
of `String::push`. What these say is taken as it stands, and a comment above each says what that is.

| Module | What it holds |
|--------|---------------|
| `model` | The mathematical model of the stored tasks, dependencies and learnings |
| `keep` | What the operations on the stored state preserve |
| `order` | The order in which tasks are taken up |
| `types`, `id`, `time`, `text`, `paths`, `error` | The data that everything else speaks of |
| `db` | The stored state, the operations on it, and the rows of the database |
| `service::rules` | What each operation does, as a function from state and request to state and answer |
| `service::task_service`, `service::readiness` | The operations on tasks, and which task comes next |
| `service::workflow_service` | Starting and completing tasks in a repository, step by step |
| `service::context` | Tasks together with the contexts and learnings that bear on them |
| `commands` | The commands of the `os` program |
| `vcs` | What is asked of jj and git, and what the answers mean |
| `output` | The human-readable output |

The modules whose names end in `laws` state what holds across operations: that dependencies never
form a cycle, that a refused request changes nothing (but for a new task that names a blocker twice:
it stays stored with the blockers before that), that nothing is stored before the repository
has done its part, that a forest shows each listed task once.

The program itself is under `app/`: the command line, the SQLite database, the repositories and the
JSON output. It loads the stored rows, hands them to the library, and writes back what the library
made of them. Where an operation needs the repository, the library says what to do next and the
program reports what came of it.

`tests/` runs the library on concrete tasks.

`kstring` stands in `Cargo.toml` though no code names it: the line holds a crate that `gix` depends
on at one release.
