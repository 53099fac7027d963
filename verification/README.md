# golf_judge

A Discord bot that runs code-golf challenges: contestants post one solution
file each in a submission channel, and an admin opens and closes submissions,
lists, removes and clears them, and tests all of them against a tester file.
The winners by code length and by speed are announced and given a role.

The decisions of the bot are a verified library (`src/`, checked with Verus):

- `bot`: the handling of a message as a state machine. `step` takes the phase
  a message is in and what the last action brought (a directory listing, a
  download, the server members, the outputs of the solutions) and gives the
  next phase and action; `reacts` states each transition exactly.
- `submission`: file names of saved solutions, the lookup of a user's
  solution, the extension of an attachment, the announcement texts.
- `tester`: reading a tester file into the input and the expected answers,
  comparing outputs, writing durations.
- `ranking`: stable orders, the passed and failed solutions, the reports.
- `language`, `command`, `text`: extensions and run commands, the words of a
  command, and the text handling these rest on (decimal numbers, trimming,
  lines).
- `laws`: properties that span these functions.

`app/` connects the library to Discord, the file system, downloads and
processes, performing the actions that `step` asks for.
