# rust_mangakakalot

A downloader for manga from mangakakalot.com and chapmanganato.com, whose
decisions are proved with Verus.

- `src/` is the verified library: reading the command line (`cli`,
  `oldmain`, `handlers::flags`, `globals`), reading manga and chapter pages
  (`page`, `mangakakalot`, `chapmanganato`, `downloaders`), choosing chapters
  (`downloaders::handlers`), laying out the chapter listing (`listing`,
  `flags`, `handlers::list`, `utils::list`), naming archives and image files
  (`utils::compress`, `page`), and the text functions they rest on (`text`).
  The regular expressions, the HTML parser and the URL parser are called
  through the small trusted wrappers in `pattern`, `html` and `address`.
- `app/` is the program around it: fetching pages and images, sleeping
  between requests, writing files and archives, and printing.
- `tests/` runs the library on concrete pages and command lines.
