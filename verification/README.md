# show_renamer

Suggests standard names for TV show episode files, in the form
`Show - S01E04 - Episode title.ext`.

- `src/` is the verified library:
  - `text` — trimming, dropping characters, reading and writing decimal numbers;
  - `matching` — the trusted calls into the `regex` crate and `str::to_lowercase`;
  - `cleaning` — `clean_name`, which cleans a base name down to the show's name;
  - `info` — `get_info`, which reads the season and episode numbers;
  - `naming` — the suggested name, a file name's extension, typed numbers and
    the user's consent;
  - `file_search`, `config` — the files to rename and the session settings.
- `app/` is the command-line program around it: argument parsing, the file
  system, the show database (tmdb) and the dialogue with the user.
- `tests/` holds the tests.
