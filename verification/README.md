# near

The backend-independent logic of the Near file manager family, written in Verus and
verified: configuration layers and migrations, settings coordination, provider and operation
planning, local and archive file systems, macros, handlers and user menus.

- `src/` is the verified library. Each public function states its result in `ensures`;
  laws that relate several functions stand as public proof functions (`law_*`).
- `tests/` holds the tests, run against the compiled library.
- `app/` is the `near` command: argument and environment reading, file and archive I/O, and
  the serde forms of library types. Verus does not see it.
