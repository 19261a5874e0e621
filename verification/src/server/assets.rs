//! What the pages carry besides their markup: styles and scripts.
use vstd::prelude::*;

verus! {

/// Layout shared by every page. Widths and margins live here rather than
/// inline so that phones get side padding (auto margins collapse to zero
/// once the viewport is narrower than max-width, leaving text on the
/// screen edge) and the detail page's poster stops floating beside a
/// heading it would otherwise squeeze.
pub const BASE_STYLE: &'static str = "<style>\
html{-webkit-text-size-adjust:100%}\
body{font-family:sans-serif;max-width:44em;margin:2em auto;padding:0 1.25rem 2rem;box-sizing:border-box}\
body.detail{max-width:46em;line-height:1.5}\
body.player{max-width:60em;margin:1.5em auto;background:#111;color:#ddd;overflow-x:hidden}\
div.videowrap{position:relative;width:100vw;margin-left:calc(50% - 50vw)}\
div.videowrap video{display:block;width:100%;max-height:85vh;background:#000}\
img.art{float:right;max-width:220px;margin:0 0 1em 1.5em;border-radius:6px}\
div.hdr{display:grid;grid-template-columns:1fr auto;grid-template-areas:\"top art\" \"desc art\";column-gap:1.5em;row-gap:.4em;align-items:start}\
div.hdr-top{grid-area:top}div.hdr-desc{grid-area:desc}\
div.hdr img.art{grid-area:art;float:none;margin:0 0 1em}\
table{max-width:100%}td{overflow-wrap:anywhere}input{font-size:1rem}\
.card{display:none;position:absolute;left:0;top:100%;z-index:10;width:32em;max-width:90vw;padding:.9em 1em;background:#1c1c1c;color:#ddd;border:1px solid #444;border-radius:6px;box-shadow:0 8px 22px rgba(0,0,0,.55);font-size:.85rem;font-weight:normal;line-height:1.5;text-align:left;box-sizing:border-box}\
.card img{float:right;width:6em;margin:0 0 .6em .9em;border-radius:4px}\
.card .facts{display:block;color:#9a9a9a;margin-top:.5em}.card .plot{display:block;margin-top:.5em}\
.card .nav{display:flex;justify-content:space-between;gap:1.5em;clear:both;margin-top:.6em;padding-top:.5em;border-top:1px solid #3a3a3a}.card .nav span:last-child{text-align:right}\
.card a:link,.card a:visited{color:#9cf}.card a:hover,.card a:active{color:#cef}\
div.covers{display:flex;flex-wrap:wrap;gap:.6em;padding:.4em 0 1em}\
div.covers .cover{position:relative;flex:none;width:120px;height:180px}\
div.covers .cover>a{display:block;width:100%;height:100%;border-radius:6px;background:#eee;box-sizing:border-box}\
div.covers .cover>a img{display:block;width:100%;height:100%;object-fit:cover;border-radius:6px}\
div.covers .cover>a.noart{display:flex;align-items:center;justify-content:center;text-align:center;padding:.6em;border:2px solid #999;background:none;color:#333;font-size:.85em;line-height:1.3;text-decoration:none;overflow-wrap:anywhere}\
div.covers .cover>a:hover{outline:2px solid #0645ad;outline-offset:1px}\
div.covers .cover:hover .card.loaded,div.covers .cover:focus-within .card.loaded{display:block}\
div.covers .card{margin-top:.35em;cursor:default}div.covers .cover.flip .card{left:auto;right:0}\
p.controls{display:flex;flex-wrap:wrap;gap:.3em 1.5em;align-items:baseline}\
html a.home,html a.home:link,html a.home:visited,html a.home:hover,html a.home:active{color:inherit;text-decoration:none;font-size:1.15em;line-height:1}\
html a.home:hover{opacity:.65}\
p.controls input[type=checkbox]{vertical-align:middle;margin:0 .3em 0 0;position:relative;top:-.08em}\
@media (max-width:40em){\
body{margin:1em auto;padding:0 1rem 1.5rem}\
body.player{margin:.5em auto}\
img.art{float:none;display:block;max-width:55%;margin:0 auto 1em}\
div.hdr{grid-template-columns:1fr;grid-template-areas:\"top\" \"art\" \"desc\"}\
div.hdr img.art{justify-self:center;margin:0 0 .5em}\
h1{font-size:1.5em}}\
</style>";

/// Hover/focus card on the player page. Pure CSS: no script, and
/// :focus-within means keyboard users get it too. Touch devices can't
/// hover, which is why the season/episode context is also rendered
/// inline — the card is enrichment, not the only route to the facts.
///
/// The "details" link rides at the right of the heading; the card
/// anchors to the heading itself (not the link) so it always opens
/// along the column's left edge instead of wherever the link landed.
/// The link's padding-bottom is the hover bridge: vertical padding on
/// an inline box is hit-tested but never moves the layout, so the
/// pointer can travel from the link down into the card without
/// crossing a dead zone that would dismiss it.
pub const PLAYER_STYLE: &'static str = r#"<style>
#heading { position: relative; }
/* The way home, to the left of the title: normal weight, a little
   quieter than the title, in the text colour rather than a link's. */
#heading a.home { font-weight: normal; color: #aaa; margin-right: .7em; vertical-align: .05em; }
.infowrap { display: inline; font-size: 1rem; font-weight: normal;
  margin-left: 1em; padding-bottom: 1em; }
.infowrap:hover .card, .infowrap:focus-within .card { display: block; }
/* Dark surfaces (the player page, the card on either page): browser
   default link colours — navy visited links especially — vanish on
   near-black, so pin every link state to a light blue. */
body.player a:link, body.player a:visited { color: #9cf; }
body.player a:hover, body.player a:active { color: #cef; }
/* Captions panel ("CC"): a fixed column down the right edge, the page
   re-centred in what remains. The body is centred by auto margins, so
   widening its max-width by the panel's width and handing that width
   back as right padding keeps the content box centred in the free
   region; the full-bleed video wrap does the same sum for its breakout. */
:root { --ccw: min(24rem, 40vw); }   /* rem: the panel's own font is smaller */
/* The hint line under the video: skip hint left, resume notes centred,
   CC at the right border — three equal flex sections so the centre stays
   centred whatever the other two hold (the note collapses when hidden,
   leaving the halves still aligned outward). */
p.hint { display: flex; align-items: center; gap: 1em; color: #666; font-size: .8em; }
p.hint > * { flex: 1 1 0; }
p.hint > .right { text-align: right; }
#rejoin { text-align: center; font-size: 1.15em; }
#cc { font: inherit; font-size: .75rem; font-weight: bold; letter-spacing: .06em;
  padding: .1em .5em; background: none; color: #aaa; border: 1px solid #666; border-radius: 3px;
  cursor: pointer; }
#cc[aria-pressed="true"] { background: #9cf; color: #111; border-color: #9cf; }
/* Lit, but the captions are in their own window: outlined, not filled. */
#cc.detached { background: none; color: #9cf; border-color: #9cf; border-style: dashed; }
body.cc { max-width: calc(60em + var(--ccw)); padding-right: calc(1.25rem + var(--ccw)); }
body.cc div.videowrap { width: calc(100vw - var(--ccw)); margin-left: calc(50% - 50vw + var(--ccw) / 2); }
/* Phones: no room beside the video, so the panel sits below the controls. */
@media (max-width: 40em) {
  body.cc { max-width: none; padding-right: 1rem; }
  body.cc div.videowrap { width: 100vw; margin-left: calc(50% - 50vw); }
  #cc-panel { position: static; width: auto; height: 45vh; margin-top: 1em;
    border: 1px solid #333; border-radius: 6px; }
  /* Equal thirds are too tight here: the button takes only its width,
     the hint its own, and the note gets the rest (centred within it). */
  p.hint > * { flex: 0 1 auto; }
  p.hint > #rejoin { flex: 1 1 0; }
}
</style>"#;

/// The captions panel's own styles, shared by the player page (where it
/// is a column down the right edge) and the pop-out window (where it is
/// the whole page — see CAPTIONS_STYLE).
pub const CC_STYLE: &'static str = r#"<style>
#cc-panel { position: fixed; top: 0; right: 0; bottom: 0; width: var(--ccw); box-sizing: border-box;
  display: flex; flex-direction: column; background: #161616; border-left: 1px solid #333;
  font-size: .85rem; }
#cc-panel[hidden] { display: none; }
#cc-panel .head { flex: none; display: flex; justify-content: space-between; align-items: center;
  gap: .5em; padding: .45em .8em; border-bottom: 1px solid #333; color: #aaa; }
#cc-panel .head .tools { display: flex; gap: .15em; flex: none; }
#cc-panel .head button { font: inherit; font-size: 1.1em; line-height: 1; padding: .1em .4em;
  background: none; color: #aaa; border: 0; border-radius: 3px; cursor: pointer; }
#cc-panel .head button:hover { background: #2a2a2a; color: #fff; }
/* Touch devices have no floating windows to pop out into. */
@media (hover: none) { #cc-pop { display: none; } }
#cc-list { position: relative; flex: 1; overflow-y: auto; overscroll-behavior: contain; }
/* flow-root: the first line's top margin (its lead-in gap) must not
   collapse through the track, which anchors the playhead and the rule. */
#cc-track { position: relative; display: flow-root; margin: .4em 0; }
/* The timeline: a rule that runs on through the gaps, so a stretch with
   nothing said still reads as time passing. */
#cc-track::before { content: ""; position: absolute; top: 0; bottom: 0; left: 4em;
  border-left: 1px solid #2c2c2c; }
#cc-track a.cue { position: relative; display: flex; gap: .7em; padding: .12em .8em .12em .6em;
  line-height: 1.35; text-decoration: none; }
#cc-track a.cue, #cc-track a.cue:link, #cc-track a.cue:visited { color: #c8c8c8; }
#cc-track a.cue:hover { background: #222; color: #fff; }
#cc-track a.cue.on { background: #26313f; color: #fff; }
#cc-track a.cue time { flex: none; width: 3.4em; text-align: right; color: #777;
  font-size: .9em; font-variant-numeric: tabular-nums; }
#cc-track a.cue.on time { color: #9cf; }
#cc-now { position: absolute; left: 0; right: 0; height: 2px; background: #9cf; opacity: .6;
  pointer-events: none; }
#cc-panel .empty { padding: 1em .9em; color: #888; }
</style>"#;

/// The pop-out captions window: the panel is the page.
pub const CAPTIONS_STYLE: &'static str = r#"<style>
body.captions { max-width: none; margin: 0; padding: 0; background: #161616; color: #ddd; overflow: hidden; }
body.captions #cc-panel { position: fixed; top: 0; left: 0; right: 0; bottom: 0; width: auto; border: 0;
  font-size: .95rem; }
body.captions #cc-panel .head { color: #ddd; }
body.captions #cc-panel .head #cc-title { overflow: hidden; text-overflow: ellipsis; white-space: nowrap; }
#cc-dock { font-size: .8em !important; border: 1px solid #555 !important; }
</style>"#;

/// The captions panel, shared by the player page and the pop-out window:
/// a program's cues down a column, placed along the running time (a line
/// sits at its start time on a pixels-per-second scale, pushed down only
/// as far as the line above needs, so silence is blank space and quick
/// exchanges pack solid), with a playhead bar, the current line
/// highlighted, the list following playback unless the viewer just
/// scrolled it, and a click seeking. The host supplies the clock
/// (opts.time, opts.duration), the seek (opts.seek) and a line's link
/// target (opts.href), and calls follow() as the clock moves.
pub const CC_PANEL_SCRIPT: &'static str = r#"<script>
window.ccPanel = function (list, track, opts) {
  var cues = [], cueEls = [], tops = [], bottoms = [], now = null, active = -1;
  var userUntil = 0;   // the viewer scrolled the list: no following until then
  function mmss(t) {
    var m = Math.floor(t / 60), s = Math.floor(t % 60);
    return m + ':' + (s < 10 ? '0' : '') + s;
  }
  function visible() { return list.clientHeight > 0; }
  function empty(text) {
    cues = []; cueEls = []; tops = []; bottoms = []; now = null; active = -1;
    track.innerHTML = '';
    var d = document.createElement('div');
    d.className = 'empty'; d.textContent = text;
    track.appendChild(d);
  }
  function render(newCues) {
    cues = newCues; cueEls = []; active = -1;
    var frag = document.createDocumentFragment();
    for (var i = 0; i < cues.length; i++) {
      var a = document.createElement('a');
      a.className = 'cue';
      a.href = opts.href ? opts.href(cues[i].start) : '#';
      a.dataset.i = i;
      var t = document.createElement('time');
      t.textContent = mmss(cues[i].start);
      var s = document.createElement('span');
      s.textContent = cues[i].text;
      a.appendChild(t); a.appendChild(s);
      frag.appendChild(a);
      cueEls.push(a);
    }
    now = document.createElement('div');
    now.id = 'cc-now';
    frag.appendChild(now);
    track.innerHTML = '';
    track.appendChild(frag);
    layout();
    follow(true);
  }
  // Each line goes at its start time × scale, or straight under the line
  // above when that would overlap. The scale is the program's own: the
  // median of (line height ÷ seconds to the next line), so a typical pair
  // of lines just touches. All writes, then all reads, then all writes:
  // interleaving them would force a reflow per line.
  function layout() {
    var n = cueEls.length;
    if (!n) return;
    var i, heights = [];
    for (i = 0; i < n; i++) cueEls[i].style.marginTop = '0';
    for (i = 0; i < n; i++) heights.push(cueEls[i].offsetHeight);
    var ratios = [];
    for (i = 1; i < n; i++) {
      var gap = cues[i].start - cues[i - 1].start;
      if (gap > 0.2) ratios.push(heights[i - 1] / gap);
    }
    ratios.sort(function (a, b) { return a - b; });
    var scale = ratios.length ? ratios[ratios.length >> 1] : 6;
    scale = Math.max(1, Math.min(12, scale));
    var bottom = 0;
    for (i = 0; i < n; i++) {
      var top = Math.max(cues[i].start * scale, bottom);
      cueEls[i].style.marginTop = Math.round((top - bottom) * 10) / 10 + 'px';
      bottom = top + heights[i];
    }
    var d = opts.duration();
    var end = isFinite(d) && d > 0 ? d : cues[n - 1].end;
    track.style.minHeight = (Math.max(bottom, end * scale) + 24) + 'px';
    tops = []; bottoms = [];
    for (i = 0; i < n; i++) {
      tops.push(cueEls[i].offsetTop);
      bottoms.push(cueEls[i].offsetTop + heights[i]);
    }
  }
  function index(t) {
    var lo = 0, hi = cues.length - 1, i = -1;
    while (lo <= hi) {
      var mid = (lo + hi) >> 1;
      if (cues[mid].start <= t) { i = mid; lo = mid + 1; } else hi = mid - 1;
    }
    return i;
  }
  // The playhead's place in the column: part-way down the current line,
  // or proportionally through the gap to the next one.
  function y(t, i) {
    if (i < 0) return cues[0].start > 0 ? Math.min(1, t / cues[0].start) * tops[0] : 0;
    var c = cues[i];
    if (t < c.end) return tops[i] + Math.min(1, (t - c.start) / Math.max(0.1, c.end - c.start)) * (bottoms[i] - tops[i]);
    var from = c.end, y0 = bottoms[i], to, y1;
    if (i + 1 < cues.length) { to = cues[i + 1].start; y1 = tops[i + 1]; }
    else { var d = opts.duration(); to = isFinite(d) ? d : from; y1 = track.offsetHeight; }
    if (to <= from) return y0;
    return y0 + Math.min(1, (t - from) / (to - from)) * (y1 - y0);
  }
  function follow(force) {
    if (!cues.length || !now || !visible()) return;
    var t = opts.time() || 0;
    var i = index(t);
    var yy = y(t, i);
    now.style.top = yy + 'px';
    var cur = i >= 0 && t < cues[i].end ? i : -1;
    if (cur !== active) {
      if (active >= 0) cueEls[active].classList.remove('on');
      if (cur >= 0) cueEls[cur].classList.add('on');
      active = cur;
    }
    if (!force && Date.now() < userUntil) return;
    var top = list.scrollTop, h = list.clientHeight;
    var pos = yy + track.offsetTop;
    if (!force && pos >= top + h * 0.15 && pos <= top + h * 0.7) return;
    var target = Math.max(0, pos - h * 0.3);
    var smooth = !force && Math.abs(target - top) < 3 * h;
    try { list.scrollTo({ top: target, behavior: smooth ? 'smooth' : 'auto' }); }
    catch (e) { list.scrollTop = target; }
  }
  ['wheel', 'touchmove', 'mousedown', 'keydown'].forEach(function (ev) {
    list.addEventListener(ev, function () { userUntil = Date.now() + 6000; }, { passive: true });
  });
  // Click a line: seek there (modifier clicks keep the link's own meaning).
  track.addEventListener('click', function (e) {
    var a = e.target && e.target.closest ? e.target.closest('a.cue') : null;
    if (!a || e.button !== 0 || e.metaKey || e.ctrlKey || e.shiftKey || e.altKey) return;
    e.preventDefault();
    var c = cues[+a.dataset.i];
    if (!c) return;
    userUntil = 0;
    opts.seek(c.start);
    follow(true);
  });
  var resizeTimer = null;
  addEventListener('resize', function () {
    if (!cues.length || !visible()) return;
    clearTimeout(resizeTimer);
    resizeTimer = setTimeout(function () { if (visible()) { layout(); follow(true); } }, 150);
  });
  return { setCues: render, empty: empty, follow: follow, layout: layout,
           hasCues: function () { return cues.length > 0; } };
};
</script>"#;

/// The pop-out window's script: it shows one program's captions (fetched
/// as the same WebVTT the player uses) and follows the player tab that
/// opened it over a BroadcastChannel, by session id — position and
/// program in, seeks out. When the player moves to the next episode, the
/// window loads that one's captions. "Dock" asks the player to show its
/// own panel again and closes the window.
pub const CAPTIONS_SCRIPT: &'static str = r#"<script>
(function () {
  var list = document.getElementById('cc-list'), track = document.getElementById('cc-track');
  var titleEl = document.getElementById('cc-title');
  var session = new URLSearchParams(location.search).get('s') || '';
  var id = location.pathname.replace(/.*\//, '');
  var state = { t: 0, duration: NaN };
  var bc = null;
  try { bc = new BroadcastChannel('mediaserver-player'); } catch (e) {}
  function post(m) { if (bc) { m.s = session; bc.postMessage(m); } }
  var panel = ccPanel(list, track, {
    time: function () { return state.t; },
    duration: function () { return state.duration; },
    href: function (t) { return '/play/' + id + '#' + Math.floor(t) + 's'; },
    seek: function (t) { state.t = t; post({ type: 'seek', t: t }); }
  });
  // WebVTT to cues: blocks with a timing line; tags and ASS-style
  // positioning stripped, entities decoded, whitespace folded.
  function decode(s) { var ta = document.createElement('textarea'); ta.innerHTML = s; return ta.value; }
  function ts(s) {
    var p = s.trim().split(' ')[0].split(':');
    var sec = parseFloat(p.pop()), m = parseInt(p.pop() || '0', 10), h = parseInt(p.pop() || '0', 10);
    return h * 3600 + m * 60 + sec;
  }
  function parseVtt(text) {
    var out = [], blocks = text.replace(/\r/g, '').split(/\n\n+/);
    for (var i = 0; i < blocks.length; i++) {
      var lines = blocks[i].split('\n'), ti = -1;
      for (var j = 0; j < lines.length; j++) if (lines[j].indexOf('-->') >= 0) { ti = j; break; }
      if (ti < 0) continue;
      var times = lines[ti].split('-->');
      var start = ts(times[0]), end = ts(times[1] || '');
      if (isNaN(start) || isNaN(end)) continue;
      var body = lines.slice(ti + 1).join(' ').replace(/<[^>]*>/g, '').replace(/\{\\[^}]*\}/g, '');
      body = decode(body).replace(/\s+/g, ' ').trim();
      if (body) out.push({ start: start, end: end, text: body });
    }
    out.sort(function (a, b) { return a.start - b.start; });
    return out;
  }
  function load(newId) {
    id = newId;
    panel.empty('Loading captions…');
    fetch('/subs/' + newId + '.vtt').then(function (r) {
      if (!r.ok) throw 0;
      return r.text();
    }).then(function (text) {
      if (id !== newId) return;
      var cues = parseVtt(text);
      if (cues.length) panel.setCues(cues); else panel.empty('No captions for this program.');
    }).catch(function () {
      if (id === newId) panel.empty('No captions for this program.');
    });
  }
  if (bc) {
    var goneTimer = null;
    bc.onmessage = function (e) {
      var m = e.data;
      if (!m || m.s !== session) return;
      if (m.type === 'gone') {
        // The player page is going away. A reload or a move to another
        // program brings a player back within the grace period (its
        // ping or state cancels this); otherwise this window is orphaned.
        clearTimeout(goneTimer);
        goneTimer = setTimeout(function () { window.close(); }, 4000);
        return;
      }
      clearTimeout(goneTimer);
      if (m.type === 'ping') { post({ type: 'pong' }); return; }   // the player asks if we are still here
      if (m.type === 'close') { window.close(); return; }
      if (m.type !== 'state') return;
      if (m.title && titleEl.textContent !== m.title) {
        titleEl.textContent = m.title;
        document.title = 'Captions — ' + m.title;
      }
      state.t = m.t; state.duration = m.duration;
      if (m.id && m.id !== id) load(m.id);
      panel.follow(false);
    };
  } else {
    titleEl.textContent = 'This browser cannot follow the player from a second window.';
  }
  document.getElementById('cc-dock').addEventListener('click', function () {
    post({ type: 'dock' });
    window.close();
  });
  // Closed by any route (dock, the player's request, the window's own
  // close box): the player unlights its button.
  addEventListener('pagehide', function () { post({ type: 'bye' }); });
  load(id);
  post({ type: 'hello' });   // a paused player answers with its state
})();
</script>"#;

/// The cover grid's hover cards: a cover's details card is fetched from
/// /card/{id} the first time the pointer rests on it (a short delay, so
/// sweeping across the grid fetches nothing) or it takes focus, kept
/// thereafter, and opened leftward when it would run off the right edge.
pub const COVERS_SCRIPT: &'static str = r#"<script>
(function () {
  var grid = document.querySelector('div.covers');
  if (!grid) return;
  var timer = null, current = null;
  function show(cover) {
    var card = cover.querySelector('.card');
    if (!card) return;
    var width = Math.min(parseFloat(getComputedStyle(card).width) || 440, innerWidth * 0.9);
    cover.classList.toggle('flip', cover.getBoundingClientRect().left + width > innerWidth - 8);
    if (card.dataset.state) return;
    card.dataset.state = 'loading';
    fetch('/card/' + cover.dataset.card).then(function (r) {
      if (!r.ok) throw 0;
      return r.text();
    }).then(function (html) {
      card.innerHTML = html;
      card.dataset.state = 'loaded';
      card.classList.add('loaded');
    }).catch(function () { delete card.dataset.state; });
  }
  grid.addEventListener('mouseover', function (e) {
    var cover = e.target.closest ? e.target.closest('.cover') : null;
    if (!cover || cover === current) return;
    current = cover;
    clearTimeout(timer);
    timer = setTimeout(function () { show(cover); }, 120);
  });
  grid.addEventListener('mouseout', function (e) {
    var cover = e.target.closest ? e.target.closest('.cover') : null;
    if (cover && !cover.contains(e.relatedTarget)) { current = null; clearTimeout(timer); }
  });
  grid.addEventListener('focusin', function (e) {
    var cover = e.target.closest ? e.target.closest('.cover') : null;
    if (cover) show(cover);
  });
})();
</script>"#;

/// The start of the player's script: the position in the URL, keys, subtitles.
pub const PLAYER_KEYS: &'static str = r#"<script>
(function () {
  var v = document.getElementById('player');
  if (!v) return;
  // timeupdate fires ~4x/second; flooring to whole seconds throttles the
  // stamping to once per second, which also keeps us far below browsers'
  // history-API rate limits. replaceState mutates the current session
  // entry rather than adding one, so history never grows.
  var last = -1;
  var honoured = true;   // false while an incoming #position is pending
  function stamp() {
    if (!honoured) return;   // never overwrite a URL we have not acted on yet
    var t = Math.floor(v.currentTime || 0);
    if (t === last) return;
    last = t;
    if (!rejoinHold) savePos(v.dataset.id, t);
    history.replaceState(null, '', location.pathname + (t > 0 ? '#' + t + 's' : ''));
  }
  v.addEventListener('timeupdate', stamp);
  v.addEventListener('pause', stamp);
  v.addEventListener('seeked', stamp);
  // Arrow keys skip 10 s and space toggles play/pause, wherever focus
  // is. Registered on the capture phase and stopping propagation so the
  // native controls (which seek by their own step and toggle on space
  // when the <video> is focused) never see the key — otherwise the two
  // actions would stack. Modified keys and text fields are left alone,
  // and so is space on a focused button: that is how a button is pressed.
  function ownsKey(e) {
    if (e.altKey || e.ctrlKey || e.metaKey || e.shiftKey) return false;
    var t = e.target, tag = t && t.tagName;
    if (tag === 'INPUT' || tag === 'TEXTAREA' || tag === 'SELECT' || (t && t.isContentEditable)) return false;
    var space = e.key === ' ' || e.key === 'Spacebar';
    if (space && tag === 'BUTTON') return false;
    return space || e.key === 'ArrowLeft' || e.key === 'ArrowRight';
  }
  document.addEventListener('keydown', function (e) {
    if (!ownsKey(e)) return;
    e.preventDefault();
    e.stopPropagation();
    if (e.key === ' ' || e.key === 'Spacebar') {
      if (e.repeat) return;   // a held key is one press, not a flicker
      if (v.paused) {
        var p = v.play();
        if (p && p.catch) p.catch(function () {});
      } else {
        v.pause();
      }
      return;
    }
    var step = e.key === 'ArrowLeft' ? -10 : 10;
    var end = isFinite(v.duration) ? v.duration : Infinity;
    try { v.currentTime = Math.max(0, Math.min(end, (v.currentTime || 0) + step)); } catch (err) {}
  }, true);
  // The keyup as well: a button presses on space's keyup, and the native
  // controls' play button is one.
  document.addEventListener('keyup', function (e) {
    if (ownsKey(e)) { e.preventDefault(); e.stopPropagation(); }
  }, true);

  // Subtitles that need extracting (#subs carries the file id) are fetched
  // while the video already plays and attached when ready.
  function attachSubs() {
    var note = document.getElementById('subs');
    if (!note || !note.dataset.extract) return;
    var id = note.dataset.extract;
    fetch('/subs/' + id + '.vtt').then(function (r) {
      if (!r.ok) throw 0;
      return r.blob();
    }).then(function (b) {
      if (v.dataset.id !== id) return;   // moved on to another episode meanwhile
      var t = document.createElement('track');
      t.kind = 'subtitles'; t.label = 'Subtitles'; t.srclang = 'en';
      t.src = URL.createObjectURL(b); t.default = true;
      v.appendChild(t); t.track.mode = 'showing';
      note.textContent = 'Subtitles ready.';
      ccRefresh();   // the captions panel can fill in now
    }).catch(function () {
      if (v.dataset.id === id) note.textContent = 'Subtitles could not be extracted.';
    });
  }
  attachSubs();

  // Second, ephemeral resume path: the URL fragment is lost when the
  // viewer wanders off through links and returns some other way than
  // Back, so the position is also stashed in sessionStorage per file id.
  // A stored position surfaces as a "resume at m:ss" link beside the
  // skip hint for 30 seconds; while the offer stands, stamping leaves
  // the stored position alone so playback from 0:00 cannot clobber it,
  // and clicking seeks there. sessionStorage can be walled off (private
  // windows): every access is guarded and the feature sits out.
  function loadPos(id) {
    try { return parseFloat(sessionStorage.getItem('playpos:' + id)) || 0; } catch (e) { return 0; }
  }
  function savePos(id, t) {
    try {
      if (t > 0) sessionStorage.setItem('playpos:' + id, String(t));
      else sessionStorage.removeItem('playpos:' + id);
    } catch (e) {}
  }
  function mmss(t) {
    var m = Math.floor(t / 60), s = Math.floor(t % 60);
    return m + ':' + (s < 10 ? '0' : '') + s;
  }
"#;

/// Where playback resumes, and skipping over segments.
pub const PLAYER_RESUME: &'static str = r#"  // The video page hosts both resume notes in the #rejoin slot beside the
  // skip hint; the music page has only its #resume line below the player.
  var rejoin = document.getElementById('rejoin') || document.getElementById('resume');
  var rejoinTimer = null, rejoinHold = false;
  function dropRejoin() {
    if (rejoinTimer) { clearTimeout(rejoinTimer); rejoinTimer = null; }
    rejoinHold = false;
    if (rejoin) { rejoin.hidden = true; rejoin.textContent = ''; }
  }
  function offerRejoin() {
    dropRejoin();
    if (!rejoin) return;
    var t = loadPos(v.dataset.id);
    if (!(t > 9)) return;   // trivial positions are not worth an offer
    var id = v.dataset.id;
    var a = document.createElement('a');
    a.href = location.pathname + '#' + Math.floor(t) + 's';
    a.textContent = 'resume at ' + mmss(t);
    a.addEventListener('click', function (e) {
      e.preventDefault();
      dropRejoin();
      // Metadata may still be loading; seeking before it throws away the
      // position, so defer like the fragment path (id-checked: the page
      // may have swapped to another episode by then).
      var seekBack = function () {
        if (v.dataset.id === id) { try { v.currentTime = t; } catch (err) {} }
      };
      if (v.readyState >= 1) seekBack();
      else v.addEventListener('loadedmetadata', seekBack, { once: true });
      var p = v.play();
      if (p && p.catch) p.catch(function () {});
    });
    rejoin.appendChild(a);
    rejoin.hidden = false;
    rejoinHold = true;
    rejoinTimer = setTimeout(dropRejoin, 30000);
  }
  // "Resuming at m:ss — start from the beginning", 30 seconds in the
  // rejoin slot. No hold: this resume is already in motion.
  function showResuming(t) {
    if (!rejoin) return;
    dropRejoin();
    rejoin.innerHTML = 'Resuming at ' + mmss(t) +
      ' — <a href="' + location.pathname + '">start from the beginning</a>';
    rejoin.hidden = false;
    rejoinTimer = setTimeout(dropRejoin, 30000);
  }
  // Catch positions the 1-second stamping missed on the way out, and
  // remember whether playback was running for the pageshow handler.
  var wasPlaying = false;
  addEventListener('pagehide', function () {
    wasPlaying = !v.paused && !v.ended;
    if (!rejoinHold && honoured) savePos(v.dataset.id, Math.floor(v.currentTime || 0));
  });
  // Back to a page the browser kept in its back/forward cache: nothing
  // re-runs and media is paused on entry, so the video sits silent at the
  // right position with no note. Restore what a fresh fragment load would
  // have done: the resuming note, and playback if it was running.
  addEventListener('pageshow', function (e) {
    if (!e.persisted) return;
    var t = Math.floor(v.currentTime || 0);
    if (t > 0) showResuming(t);
    if (wasPlaying) {
      var p = v.play();
      if (p && p.catch) p.catch(function () {});
    }
  });

  // Skip intro / credits: segments the catalog knows (named chapter
  // markers or .edl sidecars) surface as a button over the player while
  // playback is inside one — a nudge, never an auto-skip. A credits
  // segment usually reaches the end of the file, so skipping it fires
  // 'ended' and the auto-play-next machinery takes over from there.
  var skipBtn = document.getElementById('skipseg');
  var segs = [];
  function loadSegs() {
    try { segs = JSON.parse(v.dataset.segments || '[]'); } catch (e) { segs = []; }
  }
  loadSegs();
  var SEG_LABELS = { intro: 'Skip intro', credits: 'Skip credits', recap: 'Skip recap' };
  function activeSeg() {
    var t = v.currentTime || 0;
    for (var i = 0; i < segs.length; i++) {
      if (t >= segs[i].start && t < segs[i].end - 0.5) return segs[i];
    }
    return null;
  }
  if (skipBtn) {
    v.addEventListener('timeupdate', function () {
      var s = activeSeg();
      if (!s) { skipBtn.hidden = true; return; }
      skipBtn.textContent = SEG_LABELS[s.kind] || 'Skip';
      skipBtn.hidden = false;
    });
    skipBtn.addEventListener('click', function () {
      var s = activeSeg();
      if (!s) return;
      var end = isFinite(v.duration) ? v.duration : s.end;
      try { v.currentTime = Math.min(s.end, end); } catch (e) {}
      skipBtn.hidden = true;
    });
  }

"#;

/// Playing the next episode, and the state of the captions panel.
pub const PLAYER_AUTOPLAY: &'static str = r#"  // Auto-play next: remembered per browser, on unless switched off.
  var box = document.getElementById('autonext');
  if (box) {
    try { box.checked = localStorage.getItem('autonext') !== '0'; } catch (e) {}
    box.addEventListener('change', function () {
      try { localStorage.setItem('autonext', box.checked ? '1' : '0'); } catch (e) {}
    });
  }
  // Captions panel ("CC" at the right end of the hint line): every line
  // of the subtitle track down a column at the right edge, laid out along
  // the running time by the shared panel code (CC_PANEL_SCRIPT — the
  // pop-out window uses it too). This side reads the cues from the
  // <track> the browser already parsed — the .srt sidecar as WebVTT, or
  // the extracted embedded track — so nothing is fetched twice; keeps
  // the page layout and the button in step; and talks to a popped-out
  // captions window over a BroadcastChannel keyed by a per-tab session
  // (position and program out, seeks in). Remembered per browser like
  // auto-play; shown only while the program has captions.
  // Where the captions are: 'off', 'panel' (the column in this page) or
  // 'window' (popped out). The button is lit for either of the last two
  // and a click on it closes whichever is open; the two never coexist.
  var panelEl = document.getElementById('cc-panel');
  var ccMode = 'off', ccGen = 0, ccKey = '', popWin = null;
  try {
    var stored = localStorage.getItem('cc');
    ccMode = stored === '1' ? 'panel' : stored === 'window' ? 'window' : 'off';
  } catch (e) {}
  // A remembered window has to prove it is still there: it is asked
  // below and answers 'pong'; until then the captions count as off.
  var windowExpected = ccMode === 'window';
  if (windowExpected) ccMode = 'off';
  function seekTo(t) {
    dropRejoin();
    try { v.currentTime = t; } catch (err) {}
    var p = v.play();
    if (p && p.catch) p.catch(function () {});
  }
  var panel = panelEl && window.ccPanel ? ccPanel(
    document.getElementById('cc-list'), document.getElementById('cc-track'), {
      time: function () { return v.currentTime || 0; },
      duration: function () { return v.duration; },
      href: function (t) { return location.pathname + '#' + Math.floor(t) + 's'; },
      seek: seekTo
    }) : null;
  // The session id a pop-out window follows; sessionStorage is per tab
  // and survives reloads, so the window keeps following.
  var session = '';
  try {
    session = sessionStorage.getItem('ccsession') || '';
    if (!session) {
      session = Math.random().toString(36).slice(2, 12);
      sessionStorage.setItem('ccsession', session);
    }
  } catch (e) { session = String(Date.now()); }
  var bc = null;
  try { bc = new BroadcastChannel('mediaserver-player'); } catch (e) {}
  function ccPost() {
    if (!bc) return;
    bc.postMessage({ s: session, type: 'state', id: v.dataset.id, title: document.title,
      t: v.currentTime || 0, duration: v.duration, paused: v.paused });
  }
  if (bc) {
    ['timeupdate', 'seeked', 'play', 'pause', 'loadedmetadata'].forEach(function (ev) {
      v.addEventListener(ev, ccPost);
    });
    bc.onmessage = function (e) {
      var m = e.data;
      if (!m || m.s !== session) return;
      if (m.type === 'seek') seekTo(m.t);
      else if (m.type === 'hello' || m.type === 'pong') {
        // A window for this tab is alive (just opened, or found again
        // after this page reloaded): the captions are there.
        if (ccMode !== 'window') setMode('window');
        if (m.type === 'hello') ccPost();
      }
      else if (m.type === 'dock') setMode('panel');
      else if (m.type === 'bye' && ccMode === 'window') setMode('off');
    };
    if (windowExpected) bc.postMessage({ s: session, type: 'ping' });
    // Leaving (closing the tab, navigating away, reloading): tell the
    // window, which closes unless a player page in this tab comes back
    // within a few seconds — a reload, or a move to another program.
    addEventListener('pagehide', function () { bc.postMessage({ s: session, type: 'gone' }); });
  }
  function setMode(mode) {
    ccMode = mode;
    try { localStorage.setItem('cc', mode === 'panel' ? '1' : mode === 'window' ? 'window' : '0'); } catch (e) {}
    ccRefresh();
  }
  // The window closes on request — by message (this page may have
  // reloaded since it opened the window and lost its handle) and by the
  // handle when there is one.
  function closeWindow() {
    if (bc) bc.postMessage({ s: session, type: 'close' });
    if (popWin && !popWin.closed) { try { popWin.close(); } catch (e) {} }
    popWin = null;
    setMode('off');
  }
"#;

/// The captions panel.
pub const PLAYER_CAPTIONS: &'static str = r#"  // Sync the button, the page layout and the panel with the state and
  // whatever track the player carries right now. Called on toggle, after
  // an episode swap, and when an extracted track arrives.
  function ccRefresh() {
    var btn = document.getElementById('cc');
    if (!panelEl || !panel) return;
    var show = ccMode === 'panel' && !!btn && !btn.hidden;
    if (btn) {
      btn.setAttribute('aria-pressed', ccMode === 'off' ? 'false' : 'true');
      btn.classList.toggle('detached', ccMode === 'window');
      btn.title = ccMode === 'window'
        ? 'The captions are in their own window — click to close it'
        : 'Captions panel: every line along the running time — click one to jump there';
    }
    document.body.classList.toggle('cc', show);
    panelEl.hidden = !show;
    if (!show) return;
    var gen = ++ccGen, id = v.dataset.id;
    var trackEl = v.querySelector('track');
    if (!trackEl) {
      var note = document.getElementById('subs');
      ccKey = '';
      panel.empty(note && note.dataset.extract ? 'Extracting captions from the file…' : 'No captions for this program.');
      return;
    }
    var key = id + '|' + trackEl.src;
    if (key === ccKey && panel.hasCues()) { panel.layout(); panel.follow(true); return; }
    ccKey = '';
    panel.empty('Loading captions…');
    readCues(trackEl, function (list) {
      if (gen !== ccGen || v.dataset.id !== id) return;
      if (!list.length) { panel.empty('No captions for this program.'); return; }
      ccKey = key;
      panel.setCues(list);
    });
  }
  // Plain text of a cue: the browser's own rendering of the WebVTT markup
  // (<i>, <c>, entities), then any ASS-style {\an8} positioning the sidecar
  // carried through, newlines folded.
  function cueText(c) {
    var s;
    try { s = c.getCueAsHTML().textContent; } catch (e) { s = String(c.text || '').replace(/<[^>]*>/g, ''); }
    return s.replace(/\{\\[^}]*\}/g, '').replace(/\s+/g, ' ').trim();
  }
  // A track exposes its cues only once loaded and while not disabled (a
  // viewer may have switched captions off in the native controls);
  // 'hidden' loads them without drawing them.
  function readCues(trackEl, cb) {
    var tt = trackEl.track;
    function snap() {
      if (tt.mode === 'disabled') tt.mode = 'hidden';
      var out = [], list = tt.cues || [];
      for (var i = 0; i < list.length; i++) {
        var text = cueText(list[i]);
        if (text) out.push({ start: list[i].startTime, end: list[i].endTime, text: text });
      }
      cb(out);
    }
    if (trackEl.readyState === 2) return snap();
    if (trackEl.readyState === 3) return cb([]);
    trackEl.addEventListener('load', snap, { once: true });
    trackEl.addEventListener('error', function () { cb([]); }, { once: true });
    if (tt.mode === 'disabled') tt.mode = 'hidden';
  }
"#;

/// The captions in a window of their own, and swapping in another episode.
pub const PLAYER_POP_OUT: &'static str = r#"  // Pop out: the captions in a window of their own (draggable to another
  // monitor), and the page gets its width back. Reusing the window name
  // brings an existing one forward instead of opening a second.
  function popOut() {
    var w = window.open('/captions/' + v.dataset.id + '?s=' + encodeURIComponent(session),
      'mediaserver-captions', 'popup=yes,width=440,height=820');
    if (w) { popWin = w; setMode('window'); }
  }
  if (panelEl && panel) {
    v.addEventListener('timeupdate', function () { panel.follow(false); });
    v.addEventListener('seeked', function () { panel.follow(false); });
    // Delegated: the button is swapped along with the episode.
    document.addEventListener('click', function (e) {
      var t = e.target;
      if (!t || !t.closest) return;
      if (t.closest('#cc')) {
        if (ccMode === 'window') closeWindow();
        else setMode(ccMode === 'panel' ? 'off' : 'panel');
      }
      else if (t.closest('#cc-close')) setMode('off');
      else if (t.closest('#cc-pop')) popOut();
    });
    ccRefresh();
  }
  function replaceById(id, doc) {
    var mine = document.getElementById(id), theirs = doc.getElementById(id);
    if (mine && theirs) mine.replaceWith(document.importNode(theirs, true));
  }
  function each(list, f) { Array.prototype.slice.call(list).forEach(f); }
  var prefix = location.pathname.replace(/[^\/]*$/, '');   // "/play/" or "/item/"
  function swapTo(id) {
    fetch(prefix + id).then(function (r) {
      if (!r.ok) throw 0;
      return r.text();
    }).then(function (html) {
      var doc = new DOMParser().parseFromString(html, 'text/html');
      var nv = doc.getElementById('player');
      if (!nv) throw 0;
      v.pause();
      each(v.querySelectorAll('source, track'), function (n) { n.remove(); });
      if (nv.hasAttribute('poster')) v.setAttribute('poster', nv.getAttribute('poster'));
      else v.removeAttribute('poster');
      each(nv.querySelectorAll('source, track'), function (n) { v.appendChild(document.importNode(n, true)); });
      v.dataset.id = nv.dataset.id;
      v.dataset.next = nv.dataset.next || '';
      v.dataset.segments = nv.dataset.segments || '[]';
      loadSegs();
      if (skipBtn) skipBtn.hidden = true;
      document.title = doc.title;
      each(document.querySelectorAll('[data-swap]'), function (el) { replaceById(el.id, doc); });
      last = -1;
      history.pushState({ id: id }, '', prefix + id);
      v.load();
      var p = v.play();
      if (p && p.catch) p.catch(function () {});
      attachSubs();
      ccRefresh();     // the captions panel follows the new track
      ccPost();        // and so does a popped-out window
      offerRejoin();   // the incoming episode may have its own stored position
    }).catch(function () {
      location.href = prefix + id;   // plain navigation as the fallback
    });
  }
  v.addEventListener('ended', function () {
    savePos(v.dataset.id, 0);   // finished: no resume offer next time
    if (box && box.checked && v.dataset.next) swapTo(v.dataset.next);
  });
  // Prior / next / next-up links: swap in place (plain clicks only —
  // modifier clicks keep their open-in-new-tab meaning).
  document.addEventListener('click', function (e) {
    var a = e.target && e.target.closest ? e.target.closest('a[data-swap-id]') : null;
    if (!a || e.button !== 0 || e.metaKey || e.ctrlKey || e.shiftKey || e.altKey) return;
    e.preventDefault();
    swapTo(a.dataset.swapId);
  });
  // Back/forward across swapped episodes: just render whatever the URL says.
  window.addEventListener('popstate', function () { location.reload(); });

  var start = parseFloat((location.hash || '').replace(/[^0-9.]/g, ''));
  if (!(start > 0)) {
    // No fragment resume in motion: offer the stored position instead.
    offerRejoin();
    return;
  }
  honoured = false;
  function seek() {
    try { v.currentTime = start; } catch (e) {}
    honoured = true;
  }
  if (v.readyState >= 1) seek();
  else v.addEventListener('loadedmetadata', seek, { once: true });
  showResuming(start);
})();
</script>"#;

pub open spec fn player_script_text() -> Seq<char> {
    PLAYER_KEYS@ + PLAYER_RESUME@ + PLAYER_AUTOPLAY@ + PLAYER_CAPTIONS@ + PLAYER_POP_OUT@
}

/// The player's script: resume (the playback position rides in the URL
/// fragment, so a paused or scrubbed player yields a bookmarkable link
/// that picks up where it left off — fragments never reach the server, so
/// this is client side; the position is also stashed in sessionStorage
/// per file, backing a 30-second "resume at m:ss" offer for viewers who
/// come back via links instead of Back), ← / → skipping 10 seconds and space toggling
/// play/pause wherever focus is, asynchronous subtitle
/// extraction, the captions panel (every subtitle line down a column at the
/// right, laid out along the running time, click to seek — see the CC block
/// inside), and auto-play of the next episode. That last one swaps the
/// next episode's page pieces into this one instead of navigating: the
/// <video> element survives, so a fullscreen player stays fullscreen, and
/// pushState keeps the URL truthful for reload/bookmark/resume. The same
/// script serves the music detail page, whose <audio> is the player: it
/// fetches the page at the same path prefix (/play/ or /item/) and
/// replaces every element marked data-swap, and links carrying
/// data-swap-id (prior/next/next-up) swap instead of navigating.
pub fn player_script() -> (r: String)
    ensures
        r@ == player_script_text(),
{
    let mut out = PLAYER_KEYS.to_owned();
    out.push_str(PLAYER_RESUME);
    out.push_str(PLAYER_AUTOPLAY);
    out.push_str(PLAYER_CAPTIONS);
    out.push_str(PLAYER_POP_OUT);
    out
}

pub const PROFILES_STYLE: &'static str = "<style>\
div.tiles{display:flex;flex-wrap:wrap;gap:1.4em 1.8em;margin:1.2em 0}\
div.tiles form{display:flex;flex-direction:column;align-items:center;gap:.5em;width:7em;text-align:center;overflow-wrap:anywhere}\
button.tile{width:6em;height:6em;border-radius:50%;border:3px solid transparent;color:#fff;font-size:1.4em;font-weight:bold;cursor:pointer}\
button.tile:hover,button.tile:focus{border-color:#0645ad}\
button.tile.current{border-color:#333}\
button.tile.add{background:#eee;color:#555;font-size:2.2em;font-weight:normal;border-style:dashed;border-color:#aaa}\
div.tiles input{width:100%;box-sizing:border-box}\
button.x{font-size:.75em;color:#c00;background:none;border:1px solid #c00;border-radius:3px;cursor:pointer}\
p.err{color:#c00}\
</style>";

/// The seen ticks on listings and detail pages: a change posts to
/// /api/seen and the note beside the title follows the answer.
pub const WATCH_SCRIPT: &'static str = r#"<script>
(function () {
  document.addEventListener('change', function (e) {
    var box = e.target;
    if (!box || !box.matches || !box.matches('input[data-seen]')) return;
    var holder = box.closest('[data-watch]');
    var note = holder ? holder.querySelector('.wnote') : null;
    var seen = box.checked;
    box.disabled = true;
    fetch('/api/seen', {
      method: 'POST', headers: { 'Content-Type': 'application/json' },
      body: JSON.stringify({ id: parseInt(box.dataset.seen, 10), seen: seen })
    }).then(function (r) {
      if (!r.ok) throw 0;
      return r.json();
    }).then(function (j) {
      if (note) note.textContent = j.note || '';
    }).catch(function () {
      box.checked = !seen;
    }).then(function () {
      box.disabled = false;
    });
  });
})();
</script>"#;

} // verus!
