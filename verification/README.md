# tiddlydesktop

The rules of a host for TiddlyWiki on desktops and on Android: what a drop or a
paste holds, which paths and URLs are let through, how wikis are served and
kept, and what the page of a window is told. Each rule is a function with a
contract that Verus proves.

- `src/` is the library.
  - `text`, `table`: strings and small tables.
  - `outside`: what is taken from the standard library and from other crates,
    and what each is relied on for.
  - `encoding`, `clipboard`, `sanitize`: text of unknown encoding, pasted
    content, and what is let through.
  - `linux`, `macos`, `windows`, `native_dnd`, `input_inject`, `drag_drop`,
    `events`: drags, and what pages are told of them.
  - `tid`, `mime`, `folder_wiki_server`: tiddlers and the servers of wikis.
  - `saf`, `node_bridge`, `wiki_activity`, `multicast`, `fs_abstraction`: stored
    documents, Node.js, activities, and files.
  - `path_module`, `fs_module`, `runtime`, `init_script`: scripts and the modules
    that they see.
- `app/` is what surrounds the library: the file system, HTTP, Java, display
  servers and the script engine.
- `tests/` runs the library.

Proof functions named `law_...` state what holds across several functions.
