# ratch_job

The task core of a job scheduler, verified with Verus.

- `src/manager.rs`: the task manager. It knows the instances of each application, joins tasks with
  instances, and decides what a request starts.
- `src/group.rs`: the instances of one application.
- `src/run_task.rs`: the flow that runs one task.
- `src/task_list.rs`: the flow that triggers a list of jobs.
- `src/exchange.rs`: the actions that flows ask for and the replies they take in.
- `src/model.rs`: jobs, tasks and parameters. `src/error.rs`: why a request is refused.
- `src/laws/`: what holds of the registry and of whole flows.
- `app/`: the actor that performs the actions.

A flow never waits by itself: `action` names what is to be done, `resume` takes in what came of it.
Picking an instance by a job's strategy is such an action; the library fixes what is asked, for
which task and in which order, and what follows from each answer. Every request to an instance
carries the header of the manager that started the flow.
