# cys_app

The decisions of the cys desktop application as a verified library, and the application around
it. In the library (`src/`) every public function states what it
returns, and Verus proves it. The application (`app/`) reads files, runs programs, talks to the
daemons and draws nothing itself; it asks the library what to do and does it.

| module | what it decides |
| --- | --- |
| `text`, `number`, `path`, `order` | texts, decimal and hexadecimal numbers, paths, stable ordering |
| `bundle` | where the bundle runs from, and whether it may register itself |
| `backup`, `links`, `shell`, `marks`, `probe` | links on the search path, the scripts that set them, and what those report |
| `install`, `uninstall`, `report` | installing and removing the command line links |
| `json`, `rpc`, `stream` | values, requests and replies, the output and the events of a daemon |
| `access` | what may be opened, read and shown |
| `dept`, `restore` | departments, and bringing them back |
| `boot`, `update`, `reset` | starting up, new versions, the factory reset |
| `usage`, `skill` | accounts and skill runs |

What the file system, a shell or a daemon answered comes into the library as an argument, so that
each function is proved for every answer. Public proof functions named `law_…` state what holds of
several functions together.

The application takes two names from its environment: `CYS_DEFAULT_AGENT`, the agent that a master
runs unless another is named, and `CYS_PACK_MANIFEST_NAME`, the file of the latest release that
describes the newest pack.
