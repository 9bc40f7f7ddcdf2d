# dlssdl

Finds out which DLSS and Streamline packages the NVIDIA NGX update servers
offer, downloads them, and gives them their consumer file names. The library
is written in Verus: what each function does is stated in its contract and
proved.

## Layout

- `src/text.rs`, `src/number.rs`, `src/order.rs`, `src/arrange.rs`,
  `src/size.rs`: text, numbers in text, orders, sorted lists, sizes.
- `src/ngx/`: the server. `feature`, `version`, `payload`, `key`, `urls`,
  `config` and `listing` read and write what the server knows; `scan` and
  `probe` say what a listing holds and what else to ask for; `grouping` makes
  offers of it, and `offering` states what holds of them; `fetch` is a check of
  the server as a sequence of requests, and `fetching` states what holds of it;
  `digest`, `archive` and `download` are the download of an offer.
- `src/gui/`: the state of the application, without drawing.
- `app/`: the window, the requests and the files.

The library asks and decides; `app/` sends the requests, reads and writes the
files, and draws. Nothing of `app/` is verified.

## What is taken on trust

`roxmltree` parses XML, `sha2` computes digests, `zip` reads archives. They are
called in `ngx::listing`, `ngx::digest` and `ngx::archive`, by small functions
whose contracts give the results names or say what they are. `String::push` of
the standard library is specified in `text`.
