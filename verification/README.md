# ocbro

A read-only command-line tool that reads rows from a SQLite database, keeps
the rows that pass AND-combined filter conditions, cuts them down to a
projection and renders them through Handlebars templates.

The verified library lives in `src/`:

- `value.rs` – cell values, their numeric readings, and rows (a map from
  names to values, each name once);
- `config.rs` – the configuration types, template priority and path joining;
- `cli.rs` – `FIELD:OP[:VALUE]` filter arguments and how they override the
  configuration's filters;
- `db.rs` – the SQL to run, the database to open, rows from columns;
- `pipeline.rs` – filtering and projection;
- `template.rs` – the JSON context the templates see, and rendering;
- `engine.rs` – a whole run on rows already read;
- `laws.rs` – properties that span these functions;
- `text.rs` – small string helpers.

`app/` holds the program around it: argument parsing, reading the YAML
configuration and template files, querying SQLite, and the float arithmetic
that turns numbers into the ordering keys the library compares.
