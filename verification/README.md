# sebastian_core

A library, verified with Verus, behind `sebastian`, a command line tool that
gives access to the services of the University of Milan, mainly the Ariel
e-learning site.

The library reads the pages of Ariel and decides what is fetched next:

- `ariel::page`: the login page, the search page (the courses it lists),
  the pages of the site (home page, course home page, room), what lies below
  a page and which files and recorded lessons it offers, and the names under
  which they are saved. Each function is stated against a model of the
  parsed markup (`html::DomView`).
- `ariel::mware`: the login and search forms, the following of forwarding
  pages, the reading of `Content-Length`, where a download is saved, and how
  an HLS playlist leads to the segments of a recording.
- `ariel`: how the pages below a page are fetched, and a depth-first walk
  through them.
- `cli`: the options and subcommands, the choices of the `ariel` subcommand
  between its prompts (a `--silent` run asks nothing: it logs in with what is
  stored or given, or fails), and the completion of university mail
  addresses.
- `html`, `links`, `pattern`, `text`: the parsed document (by `tl`), URLs (by
  `url`), regular expressions and snake case (by `regex` and `heck`), and
  character-level text operations.

The application (`app/`) makes the HTTP requests (reqwest), writes files,
shows prompts and progress, and reads and writes the configuration file.
