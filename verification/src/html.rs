//! The page that lists a directory.

use crate::stream::UdpxStream;
use crate::util::{joined, texts, JoinIter};
use vstd::prelude::*;

verus! {

/// The page up to the place where the links go.
pub const HTML_BEFORE_LINKS: &'static str = r#"
<!DOCTYPE html>
<html>

<head>
  <meta charset="utf-8">
  <meta http-equiv="X-UA-Compatible" content="IE=edge">
  <title>HTTPFS</title>
  <meta name="viewport" content="width=device-width, initial-scale=1">
  <style>
    @import url("https://fonts.googleapis.com/css2?family=Red+Hat+Mono:ital,wght@1,500&display=swap");
    @import url("https://fonts.googleapis.com/css2?family=Ubuntu:wght@300&display=swap");

    body {
      padding: 1rem;
      font-family: "Ubuntu", sans-serif;
    }

    h1>a {
      user-select: none;
      font-family: "Red Hat Mono", monospace;
      color: rgb(93, 134, 148);
      font-size: 3rem;
      text-decoration: underline;
      text-decoration-thickness: 4px;
    }

    p {
      display: flex;
      flex-direction: column;
    }

    p>* {
      margin: 0.3em 0;
      /*
      transition: all cubic-bezier(0.075, 0.82, 0.165, 1);
      */
    }

    p>a:hover {
     /*
     transform: scale(1.1);
     */
    }

    #drop-zone {
      user-select: none;
      padding: 0.5em;
      display: flex;
      place-content: center;
      place-items: center;
      border: 4px dashed lightblue;
      border-radius: 10px;
      width: 200px;
      height: 125px;
      color: rgb(124, 165, 179);
      font-size: 1.5em;
      font-weight: bold;
    }
  </style>
</head>

<body>
  <h1><a href="/">HTTPFS</a></h1>
  <p>
    <a href=".">./</a>
    <a href="..">../</a>
"#;

/// The page behind the place where the links go.
pub const HTML_AFTER_LINKS: &'static str = r#"
  </p>
  <div id="drop-zone" ondrop="dropHandler(event);" ondragover="dragOverHandler(event);">
    <p>Drag and Drop</p>
  </div>
  <script>
    function dragOverHandler(ev) {
      ev.preventDefault();
    }

    function dropHandler(ev) {
      ev.preventDefault();

      const processFile = (file) => {
        console.log(`Uploading file: ${file.name}`);
        fetch(window.location.pathname + file.name, {
          method: "POST",
          body: file,
        })
          .then((res) => {
            console.log(`Success! ${res}`);
            location.reload();
          })
          .catch(console.log);
      };

      if (ev.dataTransfer.items) {
        for (var i = 0; i < ev.dataTransfer.items.length; i++) {
          if (ev.dataTransfer.items[i].kind === "file") {
            var file = ev.dataTransfer.items[i].getAsFile();
            processFile(file);
          }
        }
      } else {
        for (var i = 0; i < ev.dataTransfer.files.length; i++) {
          let file = ev.dataTransfer.files[i];
          processFile(file);
        }
      }
    }
  </script>
</body>

</html>
"#;

/// The line that links to `file`.
pub open spec fn link_text(file: Seq<char>) -> Seq<char> {
    "    <a href=\""@ + file + "\">"@ + file + "</a>\n"@
}

/// The lines that link to `files`, in their order.
pub open spec fn links_text(files: Seq<Seq<char>>) -> Seq<char>
    decreases files.len(),
{
    if files.len() == 0 {
        Seq::empty()
    } else {
        links_text(files.drop_last()) + link_text(files.last())
    }
}

/// The page that lists `files`.
pub open spec fn page_text(files: Seq<Seq<char>>) -> Seq<char> {
    HTML_BEFORE_LINKS@ + links_text(files) + HTML_AFTER_LINKS@
}

/// Writes the page that lists `files`: one link for each, in their order.
pub fn template(files: &Vec<String>) -> (page: String)
    ensures
        page@ == page_text(texts(files@)),
{
    let ghost all = texts(files@);
    let mut page = String::from_str(HTML_BEFORE_LINKS);
    let mut i: usize = 0;
    proof {
        assert(all.take(0) =~= Seq::<Seq<char>>::empty());
        assert(page@ =~= HTML_BEFORE_LINKS@ + links_text(all.take(0)));
    }
    while i < files.len()
        invariant
            i <= files@.len(),
            all == texts(files@),
            page@ == HTML_BEFORE_LINKS@ + links_text(all.take(i as int)),
        decreases files@.len() - i,
    {
        let ghost before = page@;
        page.append("    <a href=\"");
        page.append(files[i].as_str());
        page.append("\">");
        page.append(files[i].as_str());
        page.append("</a>\n");
        proof {
            let next = all.take(i + 1);
            assert(next.drop_last() =~= all.take(i as int));
            assert(next.last() == all[i as int]);
            assert(page@ =~= before + link_text(all[i as int]));
            assert(page@ =~= HTML_BEFORE_LINKS@ + links_text(next));
        }
        i += 1;
    }
    proof {
        assert(all.take(i as int) =~= all);
    }
    page.append(HTML_AFTER_LINKS);
    page
}

/// What lists a directory for the other side of a stream: each kind of
/// stream in its own way.
pub trait Templater {
    /// The listing of `files`.
    fn template(&self, files: Vec<String>) -> String;
}

impl Templater for UdpxStream {
    /// Over this transport a listing is the names, one to a line.
    fn template(&self, files: Vec<String>) -> (listing: String)
        ensures
            listing@ == joined(texts(files@), "\n"@),
    {
        files.join("\n")
    }
}

} // verus!
