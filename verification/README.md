# fetch-mcp-rs

An MCP server that fetches web pages for language models: a `fetch` tool that returns a
page piece by piece, and a `fetch` prompt that returns it whole. The decisions of the
server are written in Verus and proved; the protocol and the network are ordinary Rust
around them.

## Layout

- `src/` is the verified library. `server` begins tool calls and prompts, `session` is the
  state machine that carries them on, and `trace` holds the theorems about whole runs.
  `html`, `markdown`, `page`, `pagination` and `body` turn a response into text, `html_laws`
  holds the theorems about cutting and extracting HTML, and `config`, `request` and `robots`
  check what is asked for and whether it may be fetched.
- `app/` is the program: command line, standard input and output, HTTP.
- `tests/` runs the library on concrete values.

## How a request runs

`FetchServer::fetch` and `FetchServer::get_prompt` return a `Step`. While the step asks for
outside work (send a request, wait for the next part of a response, convert HTML), the
program does the work and hands the outcome to `Session::advance` as an `Event`, which
gives the next step. The last step is a reply or an error.

## What is proved

- Every executable function meets an exact contract over the text it is given.
- Unless the server is told to ignore `robots.txt`, a tool call goes on to its page only
  with the site's leave, and a site that gives none is answered with the reason.
- Every page that arrives is shown. It is the same page whether the library converts its
  HTML or the program does, provided that the program hands back what the converter gives.
- Following the notes in the replies gives the whole content of a page back.
- No more than the download limit is kept of a response, and what is kept is its beginning.
- A whole block or comment is cut from HTML wherever it stands, and text without any is
  left alone.

## What is trusted

Calls into `reqwest::Url`, `html2md` and `texting_robots`, and two functions of the standard
library (`String::push`, `String::from_utf8_lossy`), stand behind small functions whose
contracts say what is relied on. `html2md` panics on some list items that stand in a link, a
quotation or a style but in no list, so HTML in which an item may stand in one is handed to
the program for conversion.

## Flags

- `--ignore-robots-txt`: tool calls do not ask `robots.txt`
- `--user-agent VALUE`: the user agent of tool calls and prompts
- `--proxy-url VALUE`: the proxy that requests go through
