# solar_monitoring_import

Imports wide monthly reports (CSV or XLSX, one column per day) into a long
table (`caseid`, `plant_name`, `shift_hour`, `daily_kwh`), driven by
declarative profiles.

The library under `src/` is written in Verus and verified:

- `profile` — profile types, routing of a file to a profile (glob on the
  file name, header tokens, priority), header signatures, year-month
  extraction, and drafting a profile from a template (`learn`).
- `reshape` — header promotion, anchor search, calendar checks, value casts
  and the unpivot itself (`apply`).
- `decoder`, `reader` — bytes to text (UTF-8, Big5, BOM sniffing) and CSV
  text to a grid; sheet selection for workbooks.
- `dao` — table-name whitelist, the SQL Server statements and insert chunks.
- `batch` — the per-file pipeline steps, the run summary and what becomes of
  each file, the choice and order of input files.
- `config`, `cli`, `order`, `text`, `path`, `decimal`, `grid`, `error` —
  settings, command line, text order and sorting, text and path helpers,
  exact decimals, grids and errors.

`app/` is the program around it: command line, configuration loading,
logging, profile JSON, XLSX reading, the database connection, and the run
loop.
