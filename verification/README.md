# cc_switch

Skill groups and workspaces for a desktop tool that manages agent skills:
groups of installed skills are stored in SQLite, bound to workspaces
(project directories), and the skills of the groups active in a workspace
are kept deployed in the workspace's skills directory.

The library under `src/` is verified with Verus:

- `database` — the SQLite store: parameter binding, column decoding, and the
  tables of groups, members, workspaces and installed skills (`dao`). The
  handle keeps a ghost record of every statement it sends and of what came
  back, so each operation's contract states exactly which statements it
  sends, with which parameters, and that its result is the decoding of the
  rows returned.
- `services` — group creation and editing, the union of the members of the
  active groups, the ownership rules of a skills directory (which entries
  this tool manages, the manifest that records them, the comparison of a
  legacy copy with the store), and `WorkspaceSync`, the state machine of one
  synchronisation: it decides each step (link, copy, remove, write the
  manifest). Its contract (`resume_post`) fixes the next step for every phase
  and answer, a run that gets through its skills and stale entries ends by
  writing the manifest of what it deployed, and it is proved never to
  remove an entry that the manifest does not record or that the user has
  replaced; starting a synchronisation only reads the database.
- `commands` — the operations the user interface calls. Checking a group in
  a workspace binds and activates it, unchecking deactivates and unbinds it;
  the path `~` belongs to the user-level space, which cannot be deleted or
  moved elsewhere.

`app/` is a small command-line program that opens the database, runs one
operation and carries out the steps of the synchronisations it starts on the
file system. `tests/` exercises the library, with an in-memory database and a
pretend file system for the state machine.
