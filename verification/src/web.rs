use vstd::prelude::*;

use crate::auth::{
    login_step, password_verdict, session_live, session_valid_at, sessions_after_check, AuthManager,
    AuthModel,
};
use crate::parse::{split_char, split_on};
use crate::text::{chars_of, concat_str, decimal, decimal_of, string_of};

verus! {

/// `Max-Age` of the session cookie: seven days, in seconds.
pub const SESSION_COOKIE_MAX_AGE_SECS: u64 = 604800;

/// Paths served without a session: the login page, the login form's target, the QR code and
/// the static assets.
pub open spec fn is_public_path(path: Seq<char>) -> bool {
    ||| path == "/auth"@
    ||| path == "/login"@
    ||| path == "/api/qr"@
    ||| starts_with(path, "/css/"@)
    ||| starts_with(path, "/js/"@)
    ||| starts_with(path, "/assets/"@)
}

/// `prefix` begins `s`.
pub open spec fn starts_with(s: Seq<char>, prefix: Seq<char>) -> bool {
    prefix.len() <= s.len() && s.subrange(0, prefix.len() as int) == prefix
}

/// `needle` occurs somewhere in `hay`.
pub open spec fn contains_text(hay: Seq<char>, needle: Seq<char>) -> bool {
    exists|i: int| 0 <= i <= hay.len() - needle.len() && #[trigger] hay.subrange(i, i + needle.len()) == needle
}

fn matches_at(hay: &Vec<char>, needle: &Vec<char>, at: usize) -> (b: bool)
    requires
        at + needle@.len() <= hay@.len(),
    ensures
        b == (hay@.subrange(at as int, at + needle@.len()) == needle@),
{
    let n = needle.len();
    let hl = hay.len();
    let mut j: usize = 0;
    while j < n
        invariant
            j <= n == needle@.len(),
            hl == hay@.len(),
            at + n <= hl,
            forall|q: int| 0 <= q < j ==> hay@[at + q] == needle@[q],
        decreases n - j,
    {
        if hay[at + j] != needle[j] {
            proof {
                assert(hay@.subrange(at as int, at + n)[j as int] != needle@[j as int]);
            }
            return false;
        }
        j = j + 1;
    }
    proof {
        assert(hay@.subrange(at as int, at + n) =~= needle@);
    }
    true
}

/// Whether `prefix` begins `s`.
pub fn has_prefix(s: &str, prefix: &str) -> (b: bool)
    ensures
        b == starts_with(s@, prefix@),
{
    let hv = chars_of(s);
    let nv = chars_of(prefix);
    if nv.len() > hv.len() {
        return false;
    }
    matches_at(&hv, &nv, 0)
}

/// Whether `needle` occurs in `hay`.
pub fn has_text(hay: &str, needle: &str) -> (b: bool)
    ensures
        b == contains_text(hay@, needle@),
{
    let hv = chars_of(hay);
    let nv = chars_of(needle);
    if nv.len() > hv.len() {
        proof {
            assert forall|i: int| 0 <= i <= hay@.len() - needle@.len() implies #[trigger] hay@.subrange(i, i + needle@.len())
                != needle@ by {}
        }
        return false;
    }
    if nv.len() == 0 {
        proof {
            assert(hay@.subrange(0int, 0int + needle@.len()) =~= needle@);
        }
        return true;
    }
    let hl = hv.len();
    let last = hl - nv.len();
    let mut i: usize = 0;
    while i <= last
        invariant
            last == hv@.len() - nv@.len(),
            nv@.len() <= hv@.len(),
            nv@.len() > 0,
            hl == hv@.len(),
            last < hl,
            hv@ == hay@,
            nv@ == needle@,
            forall|q: int| 0 <= q < i ==> #[trigger] hay@.subrange(q, q + needle@.len()) != needle@,
        decreases last + 1 - i,
    {
        if matches_at(&hv, &nv, i) {
            return true;
        }
        i = i + 1;
    }
    false
}

/// Whether `path` is served without a session.
pub fn public_path(path: &str) -> (b: bool)
    ensures
        b == is_public_path(path@),
{
    let p = String::from_str(path);
    p == String::from_str("/auth") || p == String::from_str("/login") || p == String::from_str("/api/qr")
        || has_prefix(path, "/css/") || has_prefix(path, "/js/") || has_prefix(path, "/assets/")
}

/// What the access check in front of the routes does with a request.
pub enum Access {
    /// Serve it.
    Pass,
    /// Send the browser to the login page.
    RedirectToLogin,
    /// Answer 401.
    Unauthorized,
}

/// The answer to a request without a valid session: a redirect for pages (what asks for HTML,
/// and the root), 401 for the rest.
pub open spec fn refusal(path: Seq<char>, accept: Option<Seq<char>>) -> Access {
    if (accept matches Some(a) && contains_text(a, "text/html"@)) || path == "/"@ {
        Access::RedirectToLogin
    } else {
        Access::Unauthorized
    }
}

/// How the access check treats a request for `path` with the session cookie `token` and the `Accept`
/// header `accept`, the clock reading `now` deciding whether the session is still valid.
pub open spec fn access_step(
    pre: AuthModel,
    post: AuthModel,
    path: Seq<char>,
    token: Option<Seq<char>>,
    accept: Option<Seq<char>>,
    now: u128,
    g: Access,
) -> bool {
    if is_public_path(path) || pre.password_hash is None {
        post == pre && g is Pass
    } else {
        match token {
            None => post == pre && g == refusal(path, accept),
            Some(t) => {
                &&& post == AuthModel { sessions: sessions_after_check(pre.sessions, t, now), ..pre }
                &&& if session_valid_at(pre.sessions, t, now) {
                    g is Pass
                } else {
                    g == refusal(path, accept)
                }
            },
        }
    }
}

/// An optional string slice as an optional character sequence.
pub open spec fn opt_view(o: Option<&str>) -> Option<Seq<char>> {
    match o {
        Some(s) => Some(s@),
        None => None,
    }
}

/// Decides whether a request for `path` may be served: public paths and every path while no
/// password is set pass; otherwise the session cookie has to name a valid session.
pub fn check_access(auth: &mut AuthManager, path: &str, token: Option<&str>, accept: Option<&str>) -> (g: Access)
    requires
        old(auth).wf(),
    ensures
        final(auth).wf(),
        exists|now: u128| #[trigger] access_step(old(auth)@, final(auth)@, path@, opt_view(token), opt_view(accept), now, g),
{
    let ghost pre = auth@;
    if public_path(path) || !auth.is_password_set() {
        proof {
            assert(access_step(pre, auth@, path@, opt_view(token), opt_view(accept), 0, Access::Pass));
        }
        return Access::Pass;
    }
    let refuse = match accept {
        Some(a) => has_text(a, "text/html"),
        None => false,
    } || String::from_str(path) == String::from_str("/");
    let deny = if refuse {
        Access::RedirectToLogin
    } else {
        Access::Unauthorized
    };
    proof {
        reveal_strlit("text/html");
        assert(deny == refusal(path@, opt_view(accept)));
    }
    match token {
        None => {
            proof {
                assert(access_step(pre, auth@, path@, opt_view(token), opt_view(accept), 0, deny));
            }
            deny
        },
        Some(t) => {
            let now = auth.clock_reading();
            let valid = auth.validate_session_at(t, now);
            let g = if valid {
                Access::Pass
            } else {
                deny
            };
            proof {
                assert(auth@ =~= AuthModel { sessions: sessions_after_check(pre.sessions, t@, now), ..pre });
                assert(access_step(pre, auth@, path@, opt_view(token), opt_view(accept), now, g));
            }
            g
        },
    }
}

/// The `Set-Cookie` value that hands a session token to the browser.
pub open spec fn session_cookie_spec(token: Seq<char>) -> Seq<char> {
    "session_token="@ + token + "; HttpOnly; SameSite=Strict; Path=/; Max-Age="@ + decimal(
        SESSION_COOKIE_MAX_AGE_SECS as nat,
    )
}

/// The `Set-Cookie` value for `token`.
pub fn session_cookie(token: &str) -> (c: String)
    ensures
        c@ == session_cookie_spec(token@),
{
    let a = concat_str("session_token=", token);
    let b = concat_str(a.as_str(), "; HttpOnly; SameSite=Strict; Path=/; Max-Age=");
    let age = decimal_of(SESSION_COOKIE_MAX_AGE_SECS);
    concat_str(b.as_str(), age.as_str())
}

/// The login error page up to the error text.
pub open spec fn error_page_head() -> Seq<char> {
    "<!DOCTYPE html>\n                <html><head><title>Login - Tether</title>\n                <meta name=\"viewport\" content=\"width=device-width, initial-scale=1.0\">\n                <style>\n                    body { background: #1a1a2e; color: #eee; font-family: system-ui; display: flex; align-items: center; justify-content: center; min-height: 100vh; margin: 0; }\n                    .login-box { background: #16213e; padding: 2rem; border-radius: 12px; text-align: center; max-width: 360px; width: 90%; }\n                    h2 { color: #00d4ff; margin-bottom: 1rem; }\n                    .error { color: #e94560; margin-bottom: 1rem; }\n                    a { color: #00d4ff; text-decoration: none; }\n                </style></head>\n                <body><div class=\"login-box\">\n                    <h2>🪢 Tether</h2>\n                    <p class=\"error\">"@
}

/// The login error page after the error text.
pub open spec fn error_page_tail() -> Seq<char> {
    "</p>\n                    <a href=\"/login\">← Back to login</a>\n                </div></body></html>"@
}

/// The login page that reports the error `e`.
pub open spec fn login_error_page_spec(e: Seq<char>) -> Seq<char> {
    error_page_head() + e + error_page_tail()
}

/// The login page that reports `e`.
pub fn login_error_page(e: &str) -> (page: String)
    ensures
        page@ == login_error_page_spec(e@),
{
    let a = concat_str("<!DOCTYPE html>\n                <html><head><title>Login - Tether</title>\n                <meta name=\"viewport\" content=\"width=device-width, initial-scale=1.0\">\n                <style>\n                    body { background: #1a1a2e; color: #eee; font-family: system-ui; display: flex; align-items: center; justify-content: center; min-height: 100vh; margin: 0; }\n                    .login-box { background: #16213e; padding: 2rem; border-radius: 12px; text-align: center; max-width: 360px; width: 90%; }\n                    h2 { color: #00d4ff; margin-bottom: 1rem; }\n                    .error { color: #e94560; margin-bottom: 1rem; }\n                    a { color: #00d4ff; text-decoration: none; }\n                </style></head>\n                <body><div class=\"login-box\">\n                    <h2>🪢 Tether</h2>\n                    <p class=\"error\">", e);
    concat_str(a.as_str(), "</p>\n                    <a href=\"/login\">← Back to login</a>\n                </div></body></html>")
}

/// The answer to a submitted login form.
pub enum LoginReply {
    /// The session cookie to set, before sending the browser to `/`.
    Granted { cookie: String },
    /// The login page with the error.
    Refused { page: String },
}

/// The reply that goes with the outcome of a login.
pub open spec fn reply_fits(r: Result<String, String>, reply: LoginReply) -> bool {
    match r {
        Ok(t) => reply matches LoginReply::Granted { cookie } && cookie@ == session_cookie_spec(t@),
        Err(e) => reply matches LoginReply::Refused { page } && page@ == login_error_page_spec(e@),
    }
}

/// Handles a submitted login form from the client at address `peer`; the failed-login limit is
/// counted against that address.
pub fn login(auth: &mut AuthManager, password: &str, peer: &str) -> (reply: LoginReply)
    requires
        old(auth).wf(),
    ensures
        final(auth).wf(),
        exists|now: u128, r: Result<String, String>|
            #[trigger] login_step(old(auth)@, final(auth)@, password@, peer@, now, r)
                && reply_fits(r, reply),
{
    let r = auth.authenticate(password, peer);
    let reply = match &r {
        Ok(token) => LoginReply::Granted { cookie: session_cookie(token.as_str()) },
        Err(e) => LoginReply::Refused { page: login_error_page(e.as_str()) },
    };
    proof {
        let now = choose|now: u128| #[trigger] login_step(old(auth)@, auth@, password@, peer@, now, r);
        assert(login_step(old(auth)@, auth@, password@, peer@, now, r));
        assert(reply_fits(r, reply));
    }
    reply
}

/// The address the server listens on: every interface with LAN access, loopback otherwise.
pub open spec fn bind_address_spec(allow_lan: bool, port: u16) -> Seq<char> {
    (if allow_lan {
        "0.0.0.0"@
    } else {
        "127.0.0.1"@
    }) + ":"@ + decimal(port as nat)
}

/// `host:port` to listen on.
pub fn bind_address(allow_lan: bool, port: u16) -> (a: String)
    ensures
        a@ == bind_address_spec(allow_lan, port),
{
    let host = if allow_lan {
        "0.0.0.0"
    } else {
        "127.0.0.1"
    };
    let h = concat_str(host, ":");
    let p = decimal_of(port as u64);
    concat_str(h.as_str(), p.as_str())
}

/// `path` without its leading slashes.
pub open spec fn strip_slashes(path: Seq<char>) -> Seq<char>
    decreases path.len(),
{
    if path.len() > 0 && path[0] == '/' {
        strip_slashes(path.drop_first())
    } else {
        path
    }
}

/// The embedded asset a request path asks for: the path without its leading slashes; none
/// when nothing is left.
pub fn asset_path(uri_path: &str) -> (p: Option<String>)
    ensures
        strip_slashes(uri_path@).len() == 0 ==> p is None,
        strip_slashes(uri_path@).len() > 0 ==> (p matches Some(s) && s@ == strip_slashes(uri_path@)),
{
    let v = chars_of(uri_path);
    let n = v.len();
    let mut a: usize = 0;
    proof {
        assert(v@.subrange(0, n as int) =~= v@);
    }
    while a < n && v[a] == '/'
        invariant
            a <= n == v@.len(),
            strip_slashes(v@.subrange(a as int, n as int)) == strip_slashes(uri_path@),
            v@ == uri_path@,
        decreases n - a,
    {
        proof {
            assert(v@.subrange(a as int, n as int).drop_first() =~= v@.subrange(a + 1, n as int));
        }
        a = a + 1;
    }
    if a == n {
        None
    } else {
        Some(string_of(&v, a, n))
    }
}

/// The media type `mime_guess` assigns to a path.
pub uninterp spec fn guessed_mime(path: Seq<char>) -> Seq<char>;

/// Calls `mime_guess::from_path(..).first_or_octet_stream()` and renders the media type.
#[verifier::external_body]
fn content_type_for(path: &str) -> (t: String)
    ensures
        t@ == guessed_mime(path@),
{
    mime_guess::from_path(path).first_or_octet_stream().as_ref().to_string()
}

/// A file of the frontend to serve: its path among the assets and its media type.
pub struct StaticAsset {
    pub path: String,
    pub content_type: String,
}

/// Whether one of the `/`-separated segments of `path` is `..`, which would climb out of the
/// asset folder.
pub open spec fn has_parent_segment(path: Seq<char>) -> bool {
    split_char(path, '/').contains(".."@)
}

fn is_parent_segment(seg: &String) -> (b: bool)
    ensures
        b == (seg@ == ".."@),
{
    let v = chars_of(seg.as_str());
    proof {
        reveal_strlit("..");
    }
    if v.len() == 2 && v[0] == '.' && v[1] == '.' {
        assert(v@ =~= ".."@);
        true
    } else {
        false
    }
}

fn parent_segment_in(path: &String) -> (b: bool)
    ensures
        b == has_parent_segment(path@),
{
    let segs = split_on(&chars_of(path.as_str()), '/');
    let n = segs.len();
    for i in 0..n
        invariant
            n == segs@.len(),
            segs.deep_view() == split_char(path@, '/'),
            forall|j: int| 0 <= j < i ==> segs@[j]@ != ".."@,
    {
        if is_parent_segment(&segs[i]) {
            proof {
                assert(segs.deep_view()[i as int] == ".."@);
            }
            return true;
        }
    }
    proof {
        if split_char(path@, '/').contains(".."@) {
            let j = choose|j: int| 0 <= j < split_char(path@, '/').len() && split_char(path@, '/')[j] == ".."@;
            assert(segs.deep_view()[j] == segs@[j]@);
        }
    }
    false
}

/// The asset a request path asks for, with the media type its name suggests; none for the
/// bare root and for a path with a `..` segment, which names nothing among the assets.
pub fn static_asset(uri_path: &str) -> (a: Option<StaticAsset>)
    ensures
        strip_slashes(uri_path@).len() == 0 || has_parent_segment(strip_slashes(uri_path@)) ==> a is None,
        strip_slashes(uri_path@).len() > 0 && !has_parent_segment(strip_slashes(uri_path@)) ==> (a matches Some(
            x,
        ) && x.path@ == strip_slashes(uri_path@) && x.content_type@ == guessed_mime(strip_slashes(uri_path@))),
{
    match asset_path(uri_path) {
        None => None,
        Some(path) => {
            if parent_segment_in(&path) {
                None
            } else {
                let content_type = content_type_for(path.as_str());
                Some(StaticAsset { path, content_type })
            }
        },
    }
}

/// The QR code `qrcode::QrCode::new` makes of a byte string, as its width and its modules row
/// by row (`true` for dark); none when the data does not fit in a QR code.
pub uninterp spec fn qr_grid(data: Seq<u8>) -> Option<(usize, Seq<bool>)>;

/// Calls `QrCode::new` and reads the code's width and module colors. As the crate's source
/// shows, the modules are the rows of the square, one after the other.
#[verifier::external_body]
fn qr_modules(data: &[u8]) -> (r: Option<(usize, Vec<bool>)>)
    ensures
        r matches Some(g) ==> qr_grid(data@) == Some((g.0, g.1@)) && g.1@.len() == g.0 * g.0,
        r is None ==> qr_grid(data@) is None,
{
    qrcode::QrCode::new(data).ok().map(
        |q| (q.width(), q.to_colors().iter().map(|c| *c == qrcode::Color::Dark).collect()),
    )
}

/// The SVG image of the QR code of `data`, at least `size` pixels wide and high, in the two
/// given colors; none when the data does not fit in a QR code.
pub uninterp spec fn qr_svg_image(data: Seq<u8>, size: u32, dark: Seq<char>, light: Seq<char>) -> Option<
    Seq<char>,
>;

/// Calls `QrCode::new` and renders the code with the SVG renderer of the crate. The size is
/// bounded so that the renderer's pixel arithmetic in `u32` (`min_dimensions` and `build`)
/// cannot overflow, whatever the version of the code.
#[verifier::external_body]
fn qr_svg_render(data: &[u8], size: u32, dark: &str, light: &str) -> (r: Option<String>)
    requires
        size <= 100000,
    ensures
        r matches Some(s) ==> qr_svg_image(data@, size, dark@, light@) == Some(s@),
        r is None ==> qr_svg_image(data@, size, dark@, light@) is None,
{
    qrcode::QrCode::new(data).ok().map(
        |q|
            q.render::<qrcode::render::svg::Color>().min_dimensions(size, size).dark_color(
                qrcode::render::svg::Color(dark),
            ).light_color(qrcode::render::svg::Color(light)).build(),
    )
}

/// The URL the QR endpoint encodes: the `url` query parameter, or the local server.
pub open spec fn qr_target(url: Option<Seq<char>>) -> Seq<char> {
    match url {
        Some(u) => u,
        None => "http://localhost:8080"@,
    }
}

/// The SVG QR code of `url` (the local server when absent), 200 pixels at least, black on
/// white; none when the URL is too long for a QR code.
pub fn qr_svg(url: Option<&str>) -> (svg: Option<String>)
    ensures
        svg matches Some(s) ==> qr_svg_image(
            vstd::utf8::encode_utf8(qr_target(opt_view(url))),
            200,
            "#000000"@,
            "#ffffff"@,
        ) == Some(s@),
        svg is None ==> qr_svg_image(
            vstd::utf8::encode_utf8(qr_target(opt_view(url))),
            200,
            "#000000"@,
            "#ffffff"@,
        ) is None,
{
    let target = match url {
        Some(u) => u,
        None => "http://localhost:8080",
    };
    qr_svg_render(target.as_bytes(), 200, "#000000", "#ffffff")
}

/// Whether module `i` of a code exists and is dark.
pub open spec fn dark_at(modules: Seq<bool>, i: int) -> bool {
    0 <= i < modules.len() && modules[i]
}

/// The block character for a dark (`true`) or light upper and lower half.
pub open spec fn half_block(top: bool, bottom: bool) -> char {
    if top && bottom {
        '\u{2588}'
    } else if top {
        '\u{2580}'
    } else if bottom {
        '\u{2584}'
    } else {
        ' '
    }
}

/// Whether a block character shows a dark upper half.
pub open spec fn upper_half_dark(c: char) -> bool {
    c == '\u{2580}' || c == '\u{2588}'
}

/// Whether a block character shows a dark lower half.
pub open spec fn lower_half_dark(c: char) -> bool {
    c == '\u{2584}' || c == '\u{2588}'
}

/// Each drawn character shows the two modules it stands for: its upper half is dark exactly
/// when the upper module is, and its lower half exactly when the lower module is.
pub proof fn law_half_block_shows_both_modules(top: bool, bottom: bool)
    ensures
        upper_half_dark(half_block(top, bottom)) == top,
        lower_half_dark(half_block(top, bottom)) == bottom,
{
}

/// A QR code of width `w` drawn with block characters, two module rows per text line.
pub open spec fn qr_art_spec(w: nat, modules: Seq<bool>) -> Seq<Seq<char>> {
    Seq::new(
        (w + 1) / 2,
        |r: int|
            Seq::new(
                w,
                |x: int| half_block(dark_at(modules, 2 * r * w + x), dark_at(modules, (2 * r + 1) * w + x)),
            ),
    )
}

fn block_char(top: bool, bottom: bool) -> (c: char)
    ensures
        c == half_block(top, bottom),
{
    if top && bottom {
        '\u{2588}'
    } else if top {
        '\u{2580}'
    } else if bottom {
        '\u{2584}'
    } else {
        ' '
    }
}

fn module_dark(modules: &Vec<bool>, i: usize) -> (b: bool)
    ensures
        b == dark_at(modules@, i as int),
{
    i < modules.len() && modules[i]
}

/// Draws a QR code of width `w` (modules row by row) with block characters.
pub fn qr_art_lines(w: usize, modules: &Vec<bool>) -> (lines: Vec<String>)
    requires
        modules@.len() == w * w,
    ensures
        lines.deep_view() == qr_art_spec(w as nat, modules@),
{
    let mut lines: Vec<String> = Vec::new();
    let mut y: usize = 0;
    let total = modules.len();
    proof {
        assert(w + 2 <= usize::MAX) by (nonlinear_arith)
            requires
                w * w == total,
                total <= usize::MAX,
                usize::MAX >= 0xffff_ffff,
        ;
    }
    while y < w
        invariant
            modules@.len() == w * w,
            total == modules@.len(),
            w * w <= usize::MAX,
            w + 2 <= usize::MAX,
            y % 2 == 0,
            y <= w + 1,
            lines@.len() == y / 2,
            forall|r: int| 0 <= r < y / 2 ==> #[trigger] lines.deep_view()[r] == qr_art_spec(w as nat, modules@)[r],
        decreases w + 1 - y,
    {
        let mut line = String::new();
        let mut x: usize = 0;
        proof {
            assert((y + 1) * w <= w * w && y * w + w == (y + 1) * w) by (nonlinear_arith)
                requires
                    y < w,
            ;
        }
        let top_base = y * w;
        let bottom_base = (y + 1) * w;
        proof {
            assert(bottom_base < total ==> bottom_base + w <= total) by (nonlinear_arith)
                requires
                    bottom_base == (y + 1) * w,
                    total == w * w,
            ;
            assert(bottom_base >= total ==> bottom_base >= w * w);
        }
        while x < w
            invariant
                x <= w,
                top_base == y * w,
                bottom_base == (y + 1) * w,
                top_base + w <= w * w,
                total == w * w,
                bottom_base < total ==> bottom_base + w <= total,
                w * w <= usize::MAX,
                modules@.len() == w * w,
                line@ =~= Seq::new(
                    x as nat,
                    |q: int| half_block(dark_at(modules@, y * w + q), dark_at(modules@, (y + 1) * w + q)),
                ),
            decreases w - x,
        {
            let top = module_dark(modules, top_base + x);
            let bottom = if bottom_base < total {
                module_dark(modules, bottom_base + x)
            } else {
                false
            };
            let c = block_char(top, bottom);
            line.push(c);
            x = x + 1;
        }
        let ghost before = lines.deep_view();
        lines.push(line);
        proof {
            assert(lines.deep_view() =~= before.push(line@));
            let r = (y / 2) as int;
            assert(2 * r == y);
            assert(qr_art_spec(w as nat, modules@)[r] =~= line@) by {
                assert(r < (w + 1) / 2);
            }
        }
        y = y + 2;
    }
    proof {
        assert(lines@.len() == (w + 1) / 2);
        assert(lines.deep_view() =~= qr_art_spec(w as nat, modules@));
    }
    lines
}

/// The URL of the server on the LAN address `ip`.
pub open spec fn lan_url_spec(ip: Seq<char>, port: u16) -> Seq<char> {
    "http://"@ + ip + ":"@ + decimal(port as nat)
}

/// `http://ip:port`.
pub fn lan_url(ip: &str, port: u16) -> (u: String)
    ensures
        u@ == lan_url_spec(ip@, port),
{
    let a = concat_str("http://", ip);
    let b = concat_str(a.as_str(), ":");
    let p = decimal_of(port as u64);
    concat_str(b.as_str(), p.as_str())
}

/// The block drawing of the QR code of `url`; none when the URL is too long for a QR code.
pub fn qr_art(url: &str) -> (art: Option<Vec<String>>)
    ensures
        art matches Some(lines) ==> (qr_grid(vstd::utf8::encode_utf8(url@)) matches Some(g) && lines.deep_view()
            == qr_art_spec(g.0 as nat, g.1)),
        art is None ==> qr_grid(vstd::utf8::encode_utf8(url@)) is None,
{
    match qr_modules(url.as_bytes()) {
        None => None,
        Some((w, modules)) => Some(qr_art_lines(w, &modules)),
    }
}

/// Public paths are served whatever the session, and checking them changes nothing.
pub proof fn law_public_paths_pass(
    pre: AuthModel,
    post: AuthModel,
    path: Seq<char>,
    token: Option<Seq<char>>,
    accept: Option<Seq<char>>,
    now: u128,
    g: Access,
)
    requires
        is_public_path(path),
        access_step(pre, post, path, token, accept, now, g),
    ensures
        g is Pass,
        post == pre,
{
}

/// While no password is set, every path is served.
pub proof fn law_no_password_no_check(
    pre: AuthModel,
    post: AuthModel,
    path: Seq<char>,
    token: Option<Seq<char>>,
    accept: Option<Seq<char>>,
    now: u128,
    g: Access,
)
    requires
        pre.password_hash is None,
        access_step(pre, post, path, token, accept, now, g),
    ensures
        g is Pass,
        post == pre,
{
}

/// The token a successful login hands out opens every path as long as its session is valid.
pub proof fn law_login_token_opens_access(
    pre: AuthModel,
    mid: AuthModel,
    post: AuthModel,
    password: Seq<char>,
    ip: Seq<char>,
    login_time: u128,
    token: String,
    path: Seq<char>,
    accept: Option<Seq<char>>,
    now: u128,
    g: Access,
)
    requires
        login_step(pre, mid, password, ip, login_time, Ok(token)),
        session_live(mid.sessions[token@], now),
        access_step(mid, post, path, Some(token@), accept, now, g),
    ensures
        g is Pass,
        post == mid,
{
    let c = choose|c: u128| #[trigger] pre.sessions.insert(token@, c) == mid.sessions;
    assert(mid.sessions.contains_key(token@));
    assert(password_verdict(pre.password_hash, password) is Accepted);
    assert(mid.password_hash is Some);
    if !is_public_path(path) {
        assert(post =~= mid);
    }
}

/// Without a valid session a page request is sent to the login page and any other request
/// is refused.
pub proof fn law_no_session_no_access(
    pre: AuthModel,
    post: AuthModel,
    path: Seq<char>,
    accept: Option<Seq<char>>,
    now: u128,
    g: Access,
)
    requires
        !is_public_path(path),
        pre.password_hash is Some,
        access_step(pre, post, path, None, accept, now, g),
    ensures
        !(g is Pass),
        post == pre,
        path == "/"@ ==> g is RedirectToLogin,
{
}

} // verus!
