//! The block-page template, compiled into the binary so the page never has
//! to be read off disk at runtime.
use vstd::prelude::*;

verus! {

/// The block-page HTML with `{{token}}` slots: terminal-frame chrome,
/// key/value evidence rows, and the three-tier action buttons. Each form
/// carries the domain and block id in hidden `value="..."` attributes.
pub const TEMPLATE: &'static str = "<!doctype html>
<html lang=\"en\">
<head>
<meta charset=\"utf-8\">
<meta name=\"viewport\" content=\"width=device-width, initial-scale=1\">
<title>Blocked by Dropper: {{domain}}</title>
<style>
body { margin: 0; background: #0f1115; color: #e6e6e6; font-family: ui-monospace, Consolas, monospace; }
.frame { max-width: 44rem; margin: 4rem auto; border: 1px solid #2a2f3a; border-radius: 6px; }
.bar { padding: 0.5rem 1rem; border-bottom: 1px solid #2a2f3a; color: #8b93a1; }
.body { padding: 1.5rem 1rem; }
dl { display: grid; grid-template-columns: 10rem 1fr; gap: 0.4rem 1rem; }
dt { color: #8b93a1; }
dd { margin: 0; word-break: break-all; }
.actions { display: flex; gap: 0.75rem; margin-top: 1.5rem; }
button { font: inherit; padding: 0.5rem 1rem; border-radius: 4px; border: 1px solid #2a2f3a; cursor: pointer; }
.primary { background: #3b82f6; color: #ffffff; border-color: #3b82f6; }
.secondary { background: transparent; color: #e6e6e6; }
.tertiary { background: transparent; color: #8b93a1; border-color: transparent; }
footer { padding: 0.5rem 1rem; border-top: 1px solid #2a2f3a; color: #8b93a1; font-size: 0.85rem; }
</style>
</head>
<body>
<main class=\"frame\">
<div class=\"bar\">dropper :: blocked connection</div>
<section class=\"body\">
<h1>This site was blocked.</h1>
<p>Dropper stopped a lookup for a domain on a threat feed. Nothing was sent to it.</p>
<dl>
<dt>domain</dt><dd>{{domain}}</dd>
<dt>feed</dt><dd>{{feed}}</dd>
<dt>listed</dt><dd>{{listed_date}} {{listed_relative}}</dd>
<dt>threat</dt><dd>{{threat_type}}</dd>
</dl>
<div class=\"actions\">
<form method=\"post\" action=\"/decision\">
<input type=\"hidden\" name=\"domain\" value=\"{{domain}}\">
<input type=\"hidden\" name=\"block_id\" value=\"{{block_id}}\">
<input type=\"hidden\" name=\"action\" value=\"keep_blocked\">
<button class=\"primary\" type=\"submit\">Keep blocked</button>
</form>
<form method=\"post\" action=\"/decision\">
<input type=\"hidden\" name=\"domain\" value=\"{{domain}}\">
<input type=\"hidden\" name=\"block_id\" value=\"{{block_id}}\">
<input type=\"hidden\" name=\"action\" value=\"allow_once\">
<button class=\"secondary\" type=\"submit\">Allow once (30 min)</button>
</form>
<form method=\"post\" action=\"/decision\">
<input type=\"hidden\" name=\"domain\" value=\"{{domain}}\">
<input type=\"hidden\" name=\"block_id\" value=\"{{block_id}}\">
<input type=\"hidden\" name=\"action\" value=\"allow_forever\">
<button class=\"tertiary\" type=\"submit\">Allow forever</button>
</form>
</div>
</section>
<footer>block {{block_id}} &middot; {{ts_iso}} &middot; dropper {{version}}</footer>
</main>
</body>
</html>
";

/// Where the template lays out its evidence rows (the domain, feed,
/// listing and threat `<dt>`/`<dd>` pairs stand together, each `<dd>`
/// holding its own slot) and its footer (block id, timestamp, version).
pub(crate) proof fn lemma_template_layout()
    ensures
        TEMPLATE@ == TEMPLATE@.take(2426) + "<footer>block {{block_id}} &middot; {{ts_iso}} &middot; dropper {{version}}</footer>"@ + TEMPLATE@.skip(2510),
        TEMPLATE@ == TEMPLATE@.take(1367) + "<dt>domain</dt><dd>{{domain}}</dd>\n<dt>feed</dt><dd>{{feed}}</dd>\n<dt>listed</dt><dd>{{listed_date}} {{listed_relative}}</dd>\n<dt>threat</dt><dd>{{threat_type}}</dd>"@ + TEMPLATE@.skip(1532),
{
    reveal_strlit("<!doctype html>
<html lang=\"en\">
<head>
<meta charset=\"utf-8\">
<meta name=\"viewport\" content=\"width=device-width, initial-scale=1\">
<title>Blocked by Dropper: {{domain}}</title>
<style>
body { margin: 0; background: #0f1115; color: #e6e6e6; font-family: ui-monospace, Consolas, monospace; }
.frame { max-width: 44rem; margin: 4rem auto; border: 1px solid #2a2f3a; border-radius: 6px; }
.bar { padding: 0.5rem 1rem; border-bottom: 1px solid #2a2f3a; color: #8b93a1; }
.body { padding: 1.5rem 1rem; }
dl { display: grid; grid-template-columns: 10rem 1fr; gap: 0.4rem 1rem; }
dt { color: #8b93a1; }
dd { margin: 0; word-break: break-all; }
.actions { display: flex; gap: 0.75rem; margin-top: 1.5rem; }
button { font: inherit; padding: 0.5rem 1rem; border-radius: 4px; border: 1px solid #2a2f3a; cursor: pointer; }
.primary { background: #3b82f6; color: #ffffff; border-color: #3b82f6; }
.secondary { background: transparent; color: #e6e6e6; }
.tertiary { background: transparent; color: #8b93a1; border-color: transparent; }
footer { padding: 0.5rem 1rem; border-top: 1px solid #2a2f3a; color: #8b93a1; font-size: 0.85rem; }
</style>
</head>
<body>
<main class=\"frame\">
<div class=\"bar\">dropper :: blocked connection</div>
<section class=\"body\">
<h1>This site was blocked.</h1>
<p>Dropper stopped a lookup for a domain on a threat feed. Nothing was sent to it.</p>
<dl>
<dt>domain</dt><dd>{{domain}}</dd>
<dt>feed</dt><dd>{{feed}}</dd>
<dt>listed</dt><dd>{{listed_date}} {{listed_relative}}</dd>
<dt>threat</dt><dd>{{threat_type}}</dd>
</dl>
<div class=\"actions\">
<form method=\"post\" action=\"/decision\">
<input type=\"hidden\" name=\"domain\" value=\"{{domain}}\">
<input type=\"hidden\" name=\"block_id\" value=\"{{block_id}}\">
<input type=\"hidden\" name=\"action\" value=\"keep_blocked\">
<button class=\"primary\" type=\"submit\">Keep blocked</button>
</form>
<form method=\"post\" action=\"/decision\">
<input type=\"hidden\" name=\"domain\" value=\"{{domain}}\">
<input type=\"hidden\" name=\"block_id\" value=\"{{block_id}}\">
<input type=\"hidden\" name=\"action\" value=\"allow_once\">
<button class=\"secondary\" type=\"submit\">Allow once (30 min)</button>
</form>
<form method=\"post\" action=\"/decision\">
<input type=\"hidden\" name=\"domain\" value=\"{{domain}}\">
<input type=\"hidden\" name=\"block_id\" value=\"{{block_id}}\">
<input type=\"hidden\" name=\"action\" value=\"allow_forever\">
<button class=\"tertiary\" type=\"submit\">Allow forever</button>
</form>
</div>
</section>
<footer>block {{block_id}} &middot; {{ts_iso}} &middot; dropper {{version}}</footer>
</main>
</body>
</html>
");
    reveal_strlit("<dt>domain</dt><dd>{{domain}}</dd>\n<dt>feed</dt><dd>{{feed}}</dd>\n<dt>listed</dt><dd>{{listed_date}} {{listed_relative}}</dd>\n<dt>threat</dt><dd>{{threat_type}}</dd>");
    assert(TEMPLATE@.subrange(1367, 1532) =~= "<dt>domain</dt><dd>{{domain}}</dd>\n<dt>feed</dt><dd>{{feed}}</dd>\n<dt>listed</dt><dd>{{listed_date}} {{listed_relative}}</dd>\n<dt>threat</dt><dd>{{threat_type}}</dd>"@);
    assert(TEMPLATE@ =~= TEMPLATE@.take(1367) + TEMPLATE@.subrange(1367, 1532) + TEMPLATE@.skip(
        1532,
    ));
    reveal_strlit("<footer>block {{block_id}} &middot; {{ts_iso}} &middot; dropper {{version}}</footer>");
    assert(TEMPLATE@.subrange(2426, 2510) =~= "<footer>block {{block_id}} &middot; {{ts_iso}} &middot; dropper {{version}}</footer>"@);
    assert(TEMPLATE@ =~= TEMPLATE@.take(2426) + TEMPLATE@.subrange(2426, 2510) + TEMPLATE@.skip(
        2510,
    ));
}

} // verus!
