# ph_quakes

Earthquake reports for the Philippines, gathered from the PHIVOLCS bulletin
pages and from the PHIVOLCS Twitter timeline, and served on a map.

`src/` is the library, verified with Verus. Contracts state results over
spec functions; what the `scraper` and `chrono` crates compute (the tables
of a page, calendar arithmetic and formatting) is given a name and carried
through, not described. Properties that span several functions are public
proof functions.

- `text`, `number`, `decimal`: character-level text operations, integers as
  `str::parse` reads them, and numbers as `str::parse::<f64>` reads them,
  kept exactly (digits and exponent, infinities, NaN), each specified over
  `Seq<char>`.
- `quake`: the quake record and the splitting of a place into location and
  province.
- `bulletin`, `html_dom`, `fields`: a bulletin page read into tables by the
  `scraper` crate, the tables into rows of fields, and the rows into quakes.
- `tweet_parser`, `twitter_client`, `twitter`: tweets read into quakes, the
  addresses of the Twitter requests, and the incremental reading of the
  timeline.
- `phivolcs`, `datetime`: which bulletin pages to fetch, how a response is
  read, and how the quakes of two months are merged (calendar work is done by
  `chrono`).
- `cache`, `websocket`, `server`: the server's bounded cache and its
  subscribers, the websocket protocol decisions, and the server settings.

`app/` is the server program around the library: HTTP and websocket serving
with actix, the HTTPS requests, JSON, and the timer that polls Twitter.
