//! The list of curves that the user edits, and the state around it that is
//! kept from frame to frame.

use vstd::prelude::*;

use crate::math::{compile_expr, compiles, failure_text, meval_expr, prettified, ExprError};
use crate::store::StoredCurve;
use crate::text::{decimal, push_char, push_decimal, trim, trimmed};
use crate::plot::clamped;

verus! {

/// What a curve is, as values: its name, expression text, RGBA color and
/// whether it is drawn.
pub struct CurveModel {
    pub name: Seq<char>,
    pub expr: Seq<char>,
    pub color: Seq<u8>,
    pub visible: bool,
}

/// The name given to the curve at `index` when it has none: `f1(x)`,
/// `f2(x)`, and so on.
pub open spec fn fallback_name(index: int) -> Seq<char> {
    seq!['f'] + decimal((index + 1) as nat) + seq!['(', 'x', ')']
}

/// Whether `s` is empty or white space only.
pub open spec fn blank(s: Seq<char>) -> bool {
    trimmed(s).len() == 0
}

/// The name under which the curve at `index` is shown.
pub open spec fn shown_name(name: Seq<char>, index: int) -> Seq<char> {
    if blank(name) {
        fallback_name(index)
    } else {
        trimmed(name)
    }
}

/// The legend label of a curve: its shown name, ` = `, and its expression
/// in display form.
pub open spec fn label_text(c: CurveModel, index: int) -> Seq<char> {
    shown_name(c.name, index) + seq![' ', '=', ' '] + prettified(c.expr)
}

/// The name of the curve at `index` (counting from zero) when it has none.
pub fn fallback_curve_name(index: usize) -> (r: String)
    requires
        index < usize::MAX,
    ensures
        r@ == fallback_name(index as int),
{
    let mut s = String::new();
    push_char(&mut s, 'f');
    push_decimal(&mut s, index + 1);
    push_char(&mut s, '(');
    push_char(&mut s, 'x');
    push_char(&mut s, ')');
    assert(s@ == fallback_name(index as int));
    s
}

/// A fallback name is never blank.
pub proof fn lemma_fallback_name_not_blank(index: int)
    requires
        index >= 0,
    ensures
        !blank(fallback_name(index)),
        trimmed(fallback_name(index)) == fallback_name(index),
{
    let s = fallback_name(index);
    assert(s[0] == 'f');
    assert(s.last() == ')');
    assert(crate::text::trim_start(s) == s);
    assert(crate::text::trim_end(s) == s);
}


/// The six colors that new curves cycle through, in order (as opaque
/// premultiplied RGBA: blue, orange, green, violet, yellow, pink).
pub open spec fn palette_color(k: int) -> Seq<u8> {
    if k == 0 {
        seq![80u8, 145, 255, 255]
    } else if k == 1 {
        seq![255u8, 120, 80, 255]
    } else if k == 2 {
        seq![120u8, 220, 160, 255]
    } else if k == 3 {
        seq![200u8, 170, 255, 255]
    } else if k == 4 {
        seq![255u8, 210, 110, 255]
    } else {
        seq![250u8, 150, 220, 255]
    }
}

/// How many colors the palette has.
pub const PALETTE_LEN: usize = 6;

/// The palette color at `k`.
pub fn palette_color_at(k: usize) -> (r: [u8; 4])
    requires
        k < PALETTE_LEN,
    ensures
        r@ == palette_color(k as int),
{
    let r: [u8; 4] = if k == 0 {
        [80, 145, 255, 255]
    } else if k == 1 {
        [255, 120, 80, 255]
    } else if k == 2 {
        [120, 220, 160, 255]
    } else if k == 3 {
        [200, 170, 255, 255]
    } else if k == 4 {
        [255, 210, 110, 255]
    } else {
        [250, 150, 220, 255]
    };
    assert(r@ == palette_color(k as int));
    r
}

/// The expressions of the curves that a fresh session starts with.
pub open spec fn starter_expr(k: int) -> Seq<char> {
    if k == 0 {
        "sin(x)"@
    } else {
        "x^2"@
    }
}

/// The curves that a fresh session starts with: `f1(x) = sin(x)` and
/// `f2(x) = x^2`, visible, in the first two palette colors.
pub open spec fn starter_curves() -> Seq<CurveModel> {
    seq![
        CurveModel {
            name: fallback_name(0),
            expr: starter_expr(0),
            color: palette_color(0),
            visible: true,
        },
        CurveModel {
            name: fallback_name(1),
            expr: starter_expr(1),
            color: palette_color(1),
            visible: true,
        },
    ]
}

/// Whether `pm` is a premultiplied form of the straight color `straight`
/// as egui's `Color32::from_rgba_unmultiplied` gives it: alpha 0 gives
/// transparent black, alpha 255 keeps the color, and any other alpha is
/// kept while the color channels are scaled by a table that egui fills
/// with floating-point math, whose values are not fixed here.
pub open spec fn premultiplies(straight: Seq<u8>, pm: Seq<u8>) -> bool {
    &&& pm.len() == 4
    &&& pm[3] == straight[3]
    &&& straight[3] == 0 ==> pm == seq![0u8, 0, 0, 0]
    &&& straight[3] == 255 ==> pm == straight
}

/// Converts a straight RGBA color to premultiplied form with egui's
/// `Color32::from_rgba_unmultiplied`, read back with `Color32::to_array`.
/// Claimed of egui, as its source shows: alpha 0 gives transparent black,
/// alpha 255 leaves the color as it is, and any other alpha is kept. For
/// such an alpha the color channels come from a table that egui computes
/// with `f32::powf` once per process; what they are is left unsaid, as
/// `powf` may round differently from one platform to another.
#[verifier::external_body]
fn egui_premultiply(r: u8, g: u8, b: u8, a: u8) -> (res: [u8; 4])
    ensures
        a == 0 ==> res@ == seq![0u8, 0, 0, 0],
        a == 255 ==> res@ == seq![r, g, b, 255],
        res@[3] == a,
{
    egui::Color32::from_rgba_unmultiplied(r, g, b, a).to_array()
}

/// A curve of the plot. Its color is premultiplied RGBA.
pub struct Curve {
    pub name: String,
    pub expr: String,
    pub color: [u8; 4],
    pub visible: bool,
}

impl View for Curve {
    type V = CurveModel;

    open spec fn view(&self) -> CurveModel {
        CurveModel { name: self.name@, expr: self.expr@, color: self.color@, visible: self.visible }
    }
}

/// Whether `c` is the saved curve `s` brought back: the same name,
/// expression and visibility, with its color premultiplied.
pub open spec fn brought_back(s: CurveModel, c: CurveModel) -> bool {
    &&& c.name == s.name
    &&& c.expr == s.expr
    &&& c.visible == s.visible
    &&& premultiplies(s.color, c.color)
}

impl Curve {
    /// The name to show for this curve when it stands at `index`: its own
    /// name trimmed, or the fallback name when it has none.
    pub fn display_name(&self, index: usize) -> (r: String)
        requires
            index < usize::MAX,
        ensures
            r@ == shown_name(self.name@, index as int),
    {
        let t = trim(self.name.as_str());
        if t.unicode_len() == 0 {
            fallback_curve_name(index)
        } else {
            String::from_str(t)
        }
    }

    /// The legend label of this curve when it stands at `index`.
    pub fn formatted_label(&self, index: usize) -> (r: String)
        requires
            index < usize::MAX,
        ensures
            r@ == label_text(self@, index as int),
    {
        let mut s = self.display_name(index);
        let pretty = crate::math::prettify_expression(self.expr.as_str());
        push_char(&mut s, ' ');
        push_char(&mut s, '=');
        push_char(&mut s, ' ');
        s.append(pretty.as_str());
        assert(s@ == label_text(self@, index as int));
        s
    }

    /// The saved form of this curve.
    pub fn to_stored(&self) -> (r: StoredCurve)
        ensures
            r@ == self@,
    {
        StoredCurve {
            name: self.name.clone(),
            expr: self.expr.clone(),
            color: self.color,
            visible: self.visible,
        }
    }

    /// A curve brought back from its saved form.
    pub fn from_stored(stored: StoredCurve) -> (r: Curve)
        ensures
            brought_back(stored@, r@),
    {
        let c = stored.color;
        let color = egui_premultiply(c[0], c[1], c[2], c[3]);
        assert(c[3] == 255 ==> color@ =~= stored.color@);
        Curve { name: stored.name, expr: stored.expr, color, visible: stored.visible }
    }
}


/// The curve `c` standing at `index`, with the fallback name given when its
/// own name is blank.
pub open spec fn with_name(c: CurveModel, index: int) -> CurveModel {
    if blank(c.name) {
        CurveModel { name: fallback_name(index), ..c }
    } else {
        c
    }
}

/// Every curve of `cs` given a name where it has none.
pub open spec fn named_curves(cs: Seq<CurveModel>) -> Seq<CurveModel> {
    Seq::new(cs.len(), |i: int| with_name(cs[i], i))
}

/// The models of a list of curves.
pub open spec fn curve_models(cs: Seq<Curve>) -> Seq<CurveModel> {
    cs.map_values(|c: Curve| c@)
}

/// An optional string, as an optional character sequence.
pub open spec fn text_of(o: Option<String>) -> Option<Seq<char>> {
    match o {
        Some(s) => Some(s@),
        None => None,
    }
}

/// What the state of the curve editor is, as values.
pub struct AppModel {
    /// The curves, in the order shown.
    pub curves: Seq<CurveModel>,
    /// How many points each curve is sampled at.
    pub samples: usize,
    /// The first compile error of the last compile, if any.
    pub last_error: Option<Seq<char>>,
    /// Whether the dark theme is on.
    pub dark_mode: bool,
    /// The curve being edited.
    pub active_curve: Option<usize>,
    /// The curve whose expression field should take the keyboard focus.
    pub pending_focus: Option<usize>,
    /// Whether the plot view should be reset on the next frame.
    pub reset_requested: bool,
    /// Where in the palette the next new curve takes its color.
    pub next_color_index: usize,
}

impl AppModel {
    /// The invariant that every operation keeps: there is always a curve.
    pub open spec fn wf(self) -> bool {
        self.curves.len() >= 1
    }
}

/// The state of a fresh session.
pub open spec fn fresh_session() -> AppModel {
    AppModel {
        curves: starter_curves(),
        samples: 3000,
        last_error: None,
        dark_mode: true,
        active_curve: None,
        pending_focus: None,
        reset_requested: false,
        next_color_index: 2,
    }
}

/// The curve editor: the curves and the settings kept between frames.
/// The plotted x range and the cursor readout, which are floating point,
/// are kept beside it by the user interface. Every field is public so that
/// code that sets one can reason about it through the view.
pub struct App {
    pub curves: Vec<Curve>,
    pub samples: usize,
    pub last_error: Option<String>,
    pub dark_mode: bool,
    pub active_curve: Option<usize>,
    pub pending_focus: Option<usize>,
    pub reset_requested: bool,
    pub next_color_index: usize,
}

impl View for App {
    type V = AppModel;

    open spec fn view(&self) -> AppModel {
        AppModel {
            curves: curve_models(self.curves@),
            samples: self.samples,
            last_error: text_of(self.last_error),
            dark_mode: self.dark_mode,
            active_curve: self.active_curve,
            pending_focus: self.pending_focus,
            reset_requested: self.reset_requested,
            next_color_index: self.next_color_index,
        }
    }
}

/// Naming leaves curves that have a name as they are.
proof fn lemma_starter_curves_named()
    ensures
        named_curves(starter_curves()) == starter_curves(),
{
    lemma_fallback_name_not_blank(0);
    lemma_fallback_name_not_blank(1);
    assert(named_curves(starter_curves()) =~= starter_curves());
}

impl App {
    /// The curves that a fresh session starts with.
    pub fn default_curves() -> (r: Vec<Curve>)
        ensures
            curve_models(r@) == starter_curves(),
    {
        let mut r: Vec<Curve> = Vec::new();
        r.push(
            Curve {
                name: fallback_curve_name(0),
                expr: String::from_str("sin(x)"),
                color: palette_color_at(0),
                visible: true,
            },
        );
        r.push(
            Curve {
                name: fallback_curve_name(1),
                expr: String::from_str("x^2"),
                color: palette_color_at(1),
                visible: true,
            },
        );
        assert(curve_models(r@) =~= starter_curves());
        r
    }

    /// Gives every curve whose name is blank the fallback name of its place.
    pub fn ensure_curve_names(&mut self)
        ensures
            final(self)@ == (AppModel { curves: named_curves(old(self)@.curves), ..old(self)@ }),
    {
        let n = self.curves.len();
        let ghost old_curves = curve_models(self.curves@);
        let mut named: Vec<Curve> = Vec::new();
        for idx in 0..n
            invariant
                n == self.curves.len(),
                old_curves == curve_models(self.curves@),
                named.len() == idx,
                forall|j: int| 0 <= j < idx ==> #[trigger] named@[j]@ == with_name(old_curves[j], j),
        {
            let c = &self.curves[idx];
            let name = if crate::text::is_blank(c.name.as_str()) {
                fallback_curve_name(idx)
            } else {
                c.name.clone()
            };
            named.push(Curve { name, expr: c.expr.clone(), color: c.color, visible: c.visible });
        }
        self.curves = named;
        assert(curve_models(self.curves@) =~= named_curves(old_curves));
    }
}

/// `sel`, a curve index, after the curve at `index` is removed: it is
/// cleared when it named that curve and moved down one when it named a
/// later one.
pub open spec fn after_removal(sel: Option<usize>, index: usize) -> Option<usize> {
    match sel {
        Some(a) => if a == index {
            None
        } else if a > index {
            Some((a - 1) as usize)
        } else {
            Some(a)
        },
        None => None,
    }
}

/// `m` after a curve with expression `expr` is added: it takes the next
/// palette color and the fallback name of its place, is visible, and becomes
/// both the active curve and the one to focus.
pub open spec fn with_curve_added(m: AppModel, expr: Seq<char>) -> AppModel {
    let index = m.curves.len();
    AppModel {
        curves: m.curves.push(
            CurveModel {
                name: fallback_name(index as int),
                expr: expr,
                color: palette_color(m.next_color_index as int % 6),
                visible: true,
            },
        ),
        active_curve: Some(index as usize),
        pending_focus: Some(index as usize),
        next_color_index: (m.next_color_index + 1) as usize,
        ..m
    }
}

/// `m` after the curve at `index` is removed. The last remaining curve and
/// indices out of range are not removed. Blank names are then filled in
/// for the new places.
pub open spec fn with_curve_removed(m: AppModel, index: usize) -> AppModel {
    if m.curves.len() > 1 && index < m.curves.len() {
        AppModel {
            curves: named_curves(m.curves.remove(index as int)),
            active_curve: after_removal(m.active_curve, index),
            pending_focus: after_removal(m.pending_focus, index),
            ..m
        }
    } else {
        m
    }
}

/// Whether `curves` are the curves of a saved session brought back: the
/// starter curves when none were saved, else the saved ones in order, each
/// brought back with its blank name filled in for its place.
pub open spec fn restores(stored: Seq<CurveModel>, curves: Seq<CurveModel>) -> bool {
    if stored.len() == 0 {
        curves == starter_curves()
    } else {
        &&& curves.len() == stored.len()
        &&& forall|i: int|
            0 <= i < stored.len() ==> brought_back(with_name(stored[i], i), #[trigger] curves[i])
    }
}

/// Whether `m` is the state brought back from a saved session with the
/// given curves, sample count and theme: the sample count is clamped,
/// nothing is selected or pending, and the next new curve takes the
/// palette color after the last restored one.
pub open spec fn restored_session(
    stored: Seq<CurveModel>,
    samples: usize,
    dark_mode: bool,
    m: AppModel,
) -> bool {
    &&& restores(stored, m.curves)
    &&& m.samples == crate::plot::clamped(samples as int)
    &&& m.last_error == None::<Seq<char>>
    &&& m.dark_mode == dark_mode
    &&& m.active_curve == None::<usize>
    &&& m.pending_focus == None::<usize>
    &&& !m.reset_requested
    &&& m.next_color_index == m.curves.len()
}

/// `m` with a view reset asked for.
pub open spec fn view_refresh_requested(m: AppModel) -> AppModel {
    AppModel { reset_requested: true, ..m }
}

/// `m` once a view reset request has been answered.
pub open spec fn reset_consumed(m: AppModel) -> AppModel {
    AppModel { reset_requested: false, ..m }
}

/// The models of a list of saved curves.
pub open spec fn stored_models(cs: Seq<StoredCurve>) -> Seq<CurveModel> {
    cs.map_values(|c: StoredCurve| c@)
}

impl App {
    /// The state brought back from a saved session: its curves (the starter
    /// curves when it has none), its sample count clamped, its theme.
    pub fn from_stored(curves: Vec<StoredCurve>, samples: usize, dark_mode: bool) -> (r: App)
        ensures
            restored_session(stored_models(curves@), samples, dark_mode, r@),
            r@.wf(),
    {
        let ghost stored = stored_models(curves@);
        let n = curves.len();
        let mut rest = curves;
        let mut loaded: Vec<Curve> = Vec::new();
        let mut k: usize = 0;
        while k < n
            invariant
                n == stored.len(),
                k <= n,
                stored_models(rest@) == stored.skip(k as int),
                rest.len() == n - k,
                loaded.len() == k,
                forall|j: int| 0 <= j < k ==> brought_back(stored[j], #[trigger] loaded@[j]@),
            decreases n - k,
        {
            let ghost before = rest@;
            assert(stored_models(before)[0] == stored[k as int]);
            let s = rest.remove(0);
            assert(rest@ == before.remove(0));
            assert forall|j: int| 0 <= j < rest.len() implies #[trigger] stored_models(rest@)[j]
                == stored.skip(k + 1)[j] by {
                assert(stored_models(before)[j + 1] == stored.skip(k as int)[j + 1]);
            }
            assert(stored_models(rest@) =~= stored.skip(k + 1));
            loaded.push(Curve::from_stored(s));
            k = k + 1;
        }
        if loaded.len() == 0 {
            loaded = App::default_curves();
        }
        let count = loaded.len();
        let mut app = App {
            curves: loaded,
            samples,
            last_error: None,
            dark_mode,
            active_curve: None,
            pending_focus: None,
            reset_requested: false,
            next_color_index: count,
        };
        let ghost loaded_models = curve_models(app.curves@);
        app.ensure_curve_names();
        app.ensure_valid_settings();
        proof {
            lemma_starter_curves_named();
            if n > 0 {
                assert forall|i: int| 0 <= i < stored.len() implies brought_back(
                    with_name(stored[i], i),
                    #[trigger] app@.curves[i],
                ) by {
                    assert(app@.curves[i] == with_name(loaded_models[i], i));
                    assert(brought_back(stored[i], loaded_models[i]));
                }
            }
        }
        app
    }

    /// Clamps the sample count into the allowed range.
    pub fn ensure_valid_settings(&mut self)
        ensures
            final(self)@ == (AppModel {
                samples: crate::plot::clamped(old(self)@.samples as int) as usize,
                ..old(self)@
            }),
    {
        self.samples = crate::plot::clamp_samples(self.samples);
    }

    /// Where in the palette the next new curve takes its color.
    pub fn next_color_index(&self) -> (r: usize)
        ensures
            r == self@.next_color_index,
    {
        self.next_color_index
    }

    /// The color for the next new curve; the palette is cycled through.
    pub fn next_curve_color(&mut self) -> (r: [u8; 4])
        requires
            old(self)@.next_color_index < usize::MAX,
        ensures
            r@ == palette_color(old(self)@.next_color_index as int % 6),
            final(self)@ == (AppModel {
                next_color_index: (old(self)@.next_color_index + 1) as usize,
                ..old(self)@
            }),
    {
        let color = palette_color_at(self.next_color_index % PALETTE_LEN);
        self.next_color_index = self.next_color_index + 1;
        color
    }

    /// The curve whose expression field should take the keyboard focus.
    pub fn pending_focus(&self) -> (r: Option<usize>)
        ensures
            r == self@.pending_focus,
    {
        self.pending_focus
    }

    /// Forgets the focus request.
    pub fn clear_pending_focus(&mut self)
        ensures
            final(self)@ == (AppModel { pending_focus: None, ..old(self)@ }),
    {
        self.pending_focus = None;
    }

    /// Drops the focus request when it names a curve that no longer exists.
    pub fn drop_stale_focus(&mut self)
        ensures
            final(self)@ == (AppModel {
                pending_focus: match old(self)@.pending_focus {
                    Some(i) => if i >= old(self)@.curves.len() {
                        None
                    } else {
                        Some(i)
                    },
                    None => None,
                },
                ..old(self)@
            }),
    {
        if let Some(idx) = self.pending_focus {
            if idx >= self.curves.len() {
                self.pending_focus = None;
            }
        }
    }

    /// Whether a view reset was requested; the request is cleared.
    pub fn consume_reset_request(&mut self) -> (r: bool)
        ensures
            r == old(self)@.reset_requested,
            final(self)@ == reset_consumed(old(self)@),
    {
        if self.reset_requested {
            self.reset_requested = false;
            true
        } else {
            false
        }
    }

    /// Asks for the plot view to be reset on the next frame.
    pub fn request_view_refresh(&mut self)
        ensures
            final(self)@ == view_refresh_requested(old(self)@),
    {
        self.reset_requested = true;
    }

    /// The curves in their saved form.
    pub fn stored_curves(&self) -> (r: Vec<StoredCurve>)
        ensures
            stored_models(r@) == self@.curves,
    {
        let n = self.curves.len();
        let mut r: Vec<StoredCurve> = Vec::new();
        for i in 0..n
            invariant
                n == self.curves.len(),
                r.len() == i,
                forall|j: int| 0 <= j < i ==> #[trigger] r@[j]@ == self.curves@[j]@,
        {
            r.push(self.curves[i].to_stored());
        }
        assert(stored_models(r@) =~= self@.curves);
        r
    }

    /// Adds a visible curve with expression `expr`, the next palette color
    /// and the fallback name of its place, and makes it the active curve
    /// and the one to focus.
    pub fn add_curve(&mut self, expr: &str)
        requires
            old(self)@.curves.len() < usize::MAX,
            old(self)@.next_color_index < usize::MAX,
        ensures
            final(self)@ == with_curve_added(old(self)@, expr@),
            old(self)@.wf() ==> final(self)@.wf(),
    {
        let color = self.next_curve_color();
        let index = self.curves.len();
        let name = fallback_curve_name(index);
        self.curves.push(Curve { name, expr: String::from_str(expr), color, visible: true });
        self.active_curve = Some(index);
        self.pending_focus = Some(index);
        assert(curve_models(self.curves@) =~= with_curve_added(old(self)@, expr@).curves);
    }

    /// Removes the curve at `index`, unless it is the only one or out of
    /// range. The active curve and the focus request follow the curves they
    /// named; blank names are filled in for the new places.
    pub fn remove_curve(&mut self, index: usize)
        ensures
            final(self)@ == with_curve_removed(old(self)@, index),
            old(self)@.wf() ==> final(self)@.wf(),
    {
        if self.curves.len() > 1 && index < self.curves.len() {
            let ghost before = curve_models(self.curves@);
            let _removed = self.curves.remove(index);
            assert(curve_models(self.curves@) =~= before.remove(index as int));
            self.active_curve = match self.active_curve {
                Some(active) => if active == index {
                    None
                } else if active > index {
                    Some(active - 1)
                } else {
                    Some(active)
                },
                None => None,
            };
            self.pending_focus = match self.pending_focus {
                Some(pending) => if pending == index {
                    None
                } else if pending > index {
                    Some(pending - 1)
                } else {
                    Some(pending)
                },
                None => None,
            };
            self.ensure_curve_names();
        }
    }
}

/// The indices `i < n` at which `keep` holds, in increasing order.
pub open spec fn kept_indices(keep: spec_fn(int) -> bool, n: nat) -> Seq<int>
    decreases n,
{
    if n == 0 {
        Seq::empty()
    } else {
        let prev = kept_indices(keep, (n - 1) as nat);
        if keep(n - 1) {
            prev.push(n - 1)
        } else {
            prev
        }
    }
}

/// The least index `i < n` at which `hit` holds, if there is one.
pub open spec fn first_index(hit: spec_fn(int) -> bool, n: nat) -> Option<int>
    decreases n,
{
    if n == 0 {
        None
    } else {
        match first_index(hit, (n - 1) as nat) {
            Some(j) => Some(j),
            None => if hit(n - 1) {
                Some(n - 1)
            } else {
                None
            },
        }
    }
}

/// Predicates that agree below `n` keep the same indices below `n`.
pub proof fn lemma_kept_indices_agree(p: spec_fn(int) -> bool, q: spec_fn(int) -> bool, n: nat)
    requires
        forall|i: int| 0 <= i < n ==> #[trigger] p(i) == q(i),
    ensures
        kept_indices(p, n) == kept_indices(q, n),
    decreases n,
{
    if n > 0 {
        lemma_kept_indices_agree(p, q, (n - 1) as nat);
    }
}

/// Every kept index is below `n` and is one where the predicate holds.
pub proof fn lemma_kept_indices_hit(p: spec_fn(int) -> bool, n: nat)
    ensures
        forall|k: int|
            0 <= k < kept_indices(p, n).len() ==> 0 <= #[trigger] kept_indices(p, n)[k] < n && p(
                kept_indices(p, n)[k],
            ),
    decreases n,
{
    if n > 0 {
        let prev = kept_indices(p, (n - 1) as nat);
        lemma_kept_indices_hit(p, (n - 1) as nat);
        assert forall|k: int| 0 <= k < kept_indices(p, n).len() implies 0 <= #[trigger] kept_indices(
            p,
            n,
        )[k] < n && p(kept_indices(p, n)[k]) by {
            if k < prev.len() {
                assert(kept_indices(p, n)[k] == prev[k]);
            }
        }
    }
}

/// Predicates that agree below `n` are first met at the same index.
pub proof fn lemma_first_index_agree(p: spec_fn(int) -> bool, q: spec_fn(int) -> bool, n: nat)
    requires
        forall|i: int| 0 <= i < n ==> #[trigger] p(i) == q(i),
    ensures
        first_index(p, n) == first_index(q, n),
    decreases n,
{
    if n > 0 {
        lemma_first_index_agree(p, q, (n - 1) as nat);
    }
}

/// The first index that `first_index` finds is one where the predicate
/// holds, below `n`.
pub proof fn lemma_first_index_hits(p: spec_fn(int) -> bool, n: nat)
    ensures
        first_index(p, n) matches Some(j) ==> 0 <= j < n && p(j),
    decreases n,
{
    if n > 0 {
        lemma_first_index_hits(p, (n - 1) as nat);
    }
}

/// What compiling one curve came to: `None` when the curve was skipped
/// (hidden, or with a blank expression), else the compile result.
pub type CompileOutcome = Option<Result<meval::Expr, ExprError>>;

/// Whether an outcome is a compiled expression.
pub open spec fn is_compiled(o: CompileOutcome) -> bool {
    o matches Some(Ok(_))
}

/// Whether an outcome is a compile error.
pub open spec fn is_failure(o: CompileOutcome) -> bool {
    o matches Some(Err(_))
}

/// The message of an outcome that is a compile error.
pub open spec fn failure_message(o: CompileOutcome) -> Seq<char> {
    match o {
        Some(Err(e)) => e.text(),
        _ => Seq::empty(),
    }
}

/// The error line for the curve `c` at `index` that failed with `message`.
pub open spec fn error_line(c: CurveModel, index: int, message: Seq<char>) -> Seq<char> {
    label_text(c, index) + seq![':', ' '] + message
}

/// A curve ready to be plotted: where it stands, its legend label, its
/// color and its compiled expression.
pub struct PreparedCurve {
    pub index: usize,
    pub label: String,
    pub color: [u8; 4],
    pub expr: meval::Expr,
}

/// Whether the curve `c` at `index` is drawn: it is visible and its
/// expression compiles.
pub open spec fn drawn(c: CurveModel) -> bool {
    c.visible && compiles(c.expr)
}

/// Whether the curve `c` is visible, has an expression, and it fails to
/// compile.
pub open spec fn broken(c: CurveModel) -> bool {
    c.visible && !blank(c.expr) && !compiles(c.expr)
}

impl App {
    /// Builds the plot list from the compile outcome of each curve
    /// (`outcomes[i]` for the curve at `i`): one prepared curve for each
    /// compiled expression, in curve order, and as the last error the
    /// labelled message of the first failure, or none.
    pub fn prepare_curves(&mut self, outcomes: Vec<CompileOutcome>) -> (r: Vec<PreparedCurve>)
        requires
            outcomes.len() == old(self)@.curves.len(),
        ensures
            ({
                let cs = old(self)@.curves;
                let kept = kept_indices(|i: int| is_compiled(outcomes@[i]), cs.len());
                &&& r.len() == kept.len()
                &&& forall|k: int|
                    0 <= k < r.len() ==> {
                        &&& (#[trigger] r@[k]).index == kept[k]
                        &&& r@[k].label@ == label_text(cs[kept[k]], kept[k])
                        &&& r@[k].color@ == cs[kept[k]].color
                        &&& outcomes@[kept[k]] == Some(Ok::<meval::Expr, ExprError>(r@[k].expr))
                    }
                &&& final(self)@ == (AppModel {
                    last_error: match first_index(|i: int| is_failure(outcomes@[i]), cs.len()) {
                        Some(j) => Some(error_line(cs[j], j, failure_message(outcomes@[j]))),
                        None => None,
                    },
                    ..old(self)@
                })
            }),
    {
        let ghost cs = old(self)@.curves;
        let ghost outs = outcomes@;
        let ghost ok = |i: int| is_compiled(outs[i]);
        let ghost bad = |i: int| is_failure(outs[i]);
        let n = outcomes.len();
        self.last_error = None;
        let mut rest = outcomes;
        let mut prepared: Vec<PreparedCurve> = Vec::new();
        let mut i: usize = 0;
        assert(outs.skip(0) == outs);
        while i < n
            invariant
                n == outs.len(),
                n == cs.len(),
                n == self.curves.len(),
                i <= n,
                rest@ == outs.skip(i as int),
                cs == old(self)@.curves,
                ok == (|j: int| is_compiled(outs[j])),
                bad == (|j: int| is_failure(outs[j])),
                prepared.len() == kept_indices(ok, i as nat).len(),
                forall|k: int|
                    0 <= k < prepared.len() ==> {
                        &&& (#[trigger] prepared@[k]).index == kept_indices(ok, i as nat)[k]
                        &&& prepared@[k].label@ == label_text(
                            cs[kept_indices(ok, i as nat)[k]],
                            kept_indices(ok, i as nat)[k],
                        )
                        &&& prepared@[k].color@ == cs[kept_indices(ok, i as nat)[k]].color
                        &&& outs[kept_indices(ok, i as nat)[k]] == Some(
                            Ok::<meval::Expr, ExprError>(prepared@[k].expr),
                        )
                    },
                self@ == (AppModel {
                    last_error: match first_index(bad, i as nat) {
                        Some(j) => Some(error_line(cs[j], j, failure_message(outs[j]))),
                        None => None,
                    },
                    ..old(self)@
                }),
            decreases n - i,
        {
            let ghost before = rest@;
            let ghost kept_before = kept_indices(ok, i as nat);
            assert(before[0] == outs[i as int]);
            let o = rest.remove(0);
            assert(rest@ =~= outs.skip(i + 1));
            assert(self.curves@[i as int]@ == cs[i as int]);
            proof {
                lemma_first_index_hits(bad, i as nat);
            }
            assert(o == outs[i as int]);
            assert(ok(i as int) == is_compiled(o));
            assert(bad(i as int) == is_failure(o));
            assert(kept_indices(ok, (i + 1) as nat) == if ok(i as int) {
                kept_before.push(i as int)
            } else {
                kept_before
            });
            assert(first_index(bad, (i + 1) as nat) == match first_index(bad, i as nat) {
                Some(j) => Some(j),
                None => if bad(i as int) {
                    Some(i as int)
                } else {
                    None
                },
            });
            match o {
                None => {},
                Some(Ok(expr)) => {
                    let label = self.curves[i].formatted_label(i);
                    let color = self.curves[i].color;
                    prepared.push(PreparedCurve { index: i, label, color, expr });
                },
                Some(Err(e)) => {
                    if self.last_error.is_none() {
                        let mut line = self.curves[i].formatted_label(i);
                        push_char(&mut line, ':');
                        push_char(&mut line, ' ');
                        let m = e.message();
                        line.append(m.as_str());
                        assert(line@ == error_line(cs[i as int], i as int, failure_message(outs[i as int])));
                        self.last_error = Some(line);
                    }
                },
            }
            i = i + 1;
        }
        prepared
    }
}

impl App {
    /// Compiles the expression of every visible curve that has one. The
    /// result holds, in curve order, a prepared curve for each expression
    /// that compiled; the last error becomes the labelled message of the
    /// first visible curve whose expression did not, or none.
    pub fn compile_curves(&mut self) -> (r: Vec<PreparedCurve>)
        ensures
            ({
                let cs = old(self)@.curves;
                let kept = kept_indices(|i: int| drawn(cs[i]), cs.len());
                &&& r.len() == kept.len()
                &&& forall|k: int|
                    0 <= k < r.len() ==> {
                        &&& (#[trigger] r@[k]).index == kept[k]
                        &&& r@[k].label@ == label_text(cs[kept[k]], kept[k])
                        &&& r@[k].color@ == cs[kept[k]].color
                        &&& r@[k].expr == meval_expr(trimmed(cs[kept[k]].expr))
                    }
                &&& final(self)@ == (AppModel {
                    last_error: match first_index(|i: int| broken(cs[i]), cs.len()) {
                        Some(j) => Some(error_line(cs[j], j, failure_text(cs[j].expr))),
                        None => None,
                    },
                    ..old(self)@
                })
            }),
    {
        let ghost cs = self@.curves;
        let n = self.curves.len();
        let mut outcomes: Vec<CompileOutcome> = Vec::new();
        for i in 0..n
            invariant
                n == self.curves.len(),
                cs == self@.curves,
                outcomes.len() == i,
                forall|j: int|
                    0 <= j < i ==> {
                        &&& is_compiled(#[trigger] outcomes@[j]) == drawn(cs[j])
                        &&& is_failure(outcomes@[j]) == broken(cs[j])
                        &&& is_failure(outcomes@[j]) ==> failure_message(outcomes@[j])
                            == failure_text(cs[j].expr)
                        &&& is_compiled(outcomes@[j]) ==> outcomes@[j] == Some(
                            Ok::<meval::Expr, ExprError>(meval_expr(trimmed(cs[j].expr))),
                        )
                    },
        {
            let c = &self.curves[i];
            assert(c@ == cs[i as int]);
            if !c.visible || crate::text::is_blank(c.expr.as_str()) {
                outcomes.push(None);
            } else {
                outcomes.push(Some(compile_expr(c.expr.as_str())));
            }
        }
        let ghost outs = outcomes@;
        let r = self.prepare_curves(outcomes);
        proof {
            lemma_kept_indices_agree(
                |i: int| is_compiled(outs[i]),
                |i: int| drawn(cs[i]),
                cs.len(),
            );
            lemma_first_index_agree(
                |i: int| is_failure(outs[i]),
                |i: int| broken(cs[i]),
                cs.len(),
            );
            lemma_first_index_hits(|i: int| broken(cs[i]), cs.len());
            let kept = kept_indices(|i: int| is_compiled(outs[i]), cs.len());
            lemma_kept_indices_hit(|i: int| is_compiled(outs[i]), cs.len());
            assert forall|k: int| 0 <= k < r.len() implies (#[trigger] r@[k]).expr == meval_expr(
                trimmed(cs[kept[k]].expr),
            ) by {
                assert(is_compiled(outs[kept[k]]));
            }
        }
        r
    }
}

impl Default for App {
    /// A fresh session: the starter curves, 3000 samples, dark theme.
    fn default() -> (r: App)
        ensures
            r@ == fresh_session(),
            r@.wf(),
    {
        let mut app = App {
            curves: App::default_curves(),
            samples: 3000,
            last_error: None,
            dark_mode: true,
            active_curve: None,
            pending_focus: None,
            reset_requested: false,
            next_color_index: 2,
        };
        app.ensure_curve_names();
        proof {
            lemma_starter_curves_named();
        }
        app
    }
}


/// Every state the editor can be in has a curve: a fresh session and a
/// restored one have one, adding a curve keeps one, and removing never
/// takes away the last.
pub proof fn law_always_a_curve(
    m: AppModel,
    expr: Seq<char>,
    index: usize,
    stored: Seq<CurveModel>,
    samples: usize,
    dark_mode: bool,
    back: AppModel,
)
    ensures
        fresh_session().wf(),
        restored_session(stored, samples, dark_mode, back) ==> back.wf(),
        m.wf() ==> with_curve_added(m, expr).wf(),
        m.wf() ==> with_curve_removed(m, index).wf(),
{
}

/// Removing the curve that was just added gives back the curves there were
/// before, when all of them had names; nothing is left active or waiting
/// for focus.
pub proof fn law_remove_undoes_add(m: AppModel, expr: Seq<char>)
    requires
        m.wf(),
        m.curves.len() < usize::MAX,
        forall|i: int| 0 <= i < m.curves.len() ==> !blank(#[trigger] m.curves[i].name),
    ensures
        ({
            let back = with_curve_removed(with_curve_added(m, expr), m.curves.len() as usize);
            &&& back.curves == m.curves
            &&& back.active_curve == None::<usize>
            &&& back.pending_focus == None::<usize>
        }),
{
    let added = with_curve_added(m, expr);
    assert(added.curves.remove(m.curves.len() as int) =~= m.curves);
    assert(named_curves(m.curves) =~= m.curves);
}

/// After a removal the active curve, if it was another curve, still names
/// that same curve (its name filled in only if it had none).
pub proof fn law_removal_keeps_active_curve(m: AppModel, index: usize)
    requires
        m.curves.len() > 1,
        index < m.curves.len(),
        m.active_curve matches Some(a) && a < m.curves.len() && a != index,
    ensures
        ({
            let after = with_curve_removed(m, index);
            let a = m.active_curve->0;
            &&& after.active_curve matches Some(b) && b < after.curves.len()
            &&& after.curves[after.active_curve->0 as int] == with_name(
                m.curves[a as int],
                after.active_curve->0 as int,
            )
        }),
{
}

/// After a removal the curve waiting for focus, if it was another curve,
/// is still the one waiting (its name filled in only if it had none).
pub proof fn law_removal_keeps_focus_request(m: AppModel, index: usize)
    requires
        m.curves.len() > 1,
        index < m.curves.len(),
        m.pending_focus matches Some(a) && a < m.curves.len() && a != index,
    ensures
        ({
            let after = with_curve_removed(m, index);
            let a = m.pending_focus->0;
            &&& after.pending_focus matches Some(b) && b < after.curves.len()
            &&& after.curves[after.pending_focus->0 as int] == with_name(
                m.curves[a as int],
                after.pending_focus->0 as int,
            )
        }),
{
}

/// New curves take the palette colors in turn: a curve added six colors
/// later has the same color.
pub proof fn law_palette_cycles(m: AppModel, expr: Seq<char>, later: AppModel)
    requires
        later.curves.len() == m.curves.len(),
        later.next_color_index == m.next_color_index + 6,
    ensures
        with_curve_added(later, expr).curves.last().color == with_curve_added(
            m,
            expr,
        ).curves.last().color,
{
}

/// A saved curve with an opaque color comes back exactly as it was saved;
/// since saving keeps every field, so does an opaque curve saved and
/// brought back.
pub proof fn law_opaque_curve_roundtrip(c: CurveModel, back: CurveModel)
    requires
        c.color.len() == 4,
        c.color[3] == 255,
        brought_back(c, back),
    ensures
        back == c,
{
}

/// A session whose curves are all named and opaque, saved and brought
/// back, has the same curves, sample count and theme, and the next new
/// curve starts the palette after the last saved one.
pub proof fn law_session_roundtrip(m: AppModel, back: AppModel)
    requires
        m.wf(),
        crate::plot::clamped(m.samples as int) == m.samples,
        forall|i: int|
            #![trigger m.curves[i]]
            0 <= i < m.curves.len() ==> {
                &&& !blank(m.curves[i].name)
                &&& m.curves[i].color.len() == 4
                &&& m.curves[i].color[3] == 255
            },
        restored_session(m.curves, m.samples, m.dark_mode, back),
    ensures
        back.curves == m.curves,
        back.samples == m.samples,
        back.dark_mode == m.dark_mode,
        back.next_color_index == m.curves.len(),
{
    assert forall|i: int| 0 <= i < m.curves.len() implies back.curves[i] == m.curves[i] by {
        assert(with_name(m.curves[i], i) == m.curves[i]);
        assert(brought_back(with_name(m.curves[i], i), back.curves[i]));
        law_opaque_curve_roundtrip(m.curves[i], back.curves[i]);
    }
    assert(back.curves =~= m.curves);
}

/// After names are filled in, no curve is left without a name; curves that
/// had one keep it.
pub proof fn law_naming_fills_every_name(cs: Seq<CurveModel>)
    ensures
        forall|i: int| 0 <= i < cs.len() ==> !blank(#[trigger] named_curves(cs)[i].name),
        forall|i: int| 0 <= i < cs.len() && !blank(cs[i].name) ==> #[trigger] named_curves(cs)[i] == cs[i],
{
    assert forall|i: int| 0 <= i < cs.len() implies !blank(#[trigger] named_curves(cs)[i].name) by {
        lemma_fallback_name_not_blank(i);
    }
}

/// A view reset that was asked for is answered exactly once: after
/// `request_view_refresh`, the first `consume_reset_request` answers `true`
/// and the second `false`, leaving the state as the first left it.
pub proof fn law_reset_answered_once(m: AppModel)
    ensures
        ({
            let asked = view_refresh_requested(m);
            let once = reset_consumed(asked);
            &&& asked.reset_requested
            &&& !once.reset_requested
            &&& reset_consumed(once) == once
        }),
{
}


/// Removing the active curve, or the curve waiting for focus, clears that
/// selection, wherever the removed curve stands: the curve that slides into
/// its place is not selected in its stead.
pub proof fn law_removing_selected_curve_clears_selection(m: AppModel, index: usize)
    requires
        m.curves.len() > 1,
        index < m.curves.len(),
    ensures
        m.active_curve == Some(index) ==> with_curve_removed(m, index).active_curve == None::<usize>,
        m.pending_focus == Some(index) ==> with_curve_removed(m, index).pending_focus
            == None::<usize>,
        with_curve_removed(m, index).curves.len() == m.curves.len() - 1,
{
}

/// A new curve takes its color from the color counter, not from how many
/// curves there are: it is palette color `next_color_index mod 6`, the one
/// `next_curve_color` hands out, and two states with the same counter give
/// the new curve the same color whatever curves they hold.
pub proof fn law_added_color_follows_counter(m: AppModel, other: AppModel, expr: Seq<char>)
    requires
        other.next_color_index == m.next_color_index,
        m.next_color_index < usize::MAX,
    ensures
        with_curve_added(m, expr).curves.last().color == palette_color(
            m.next_color_index as int % 6,
        ),
        with_curve_added(m, expr).curves.last().color == with_curve_added(
            other,
            expr,
        ).curves.last().color,
        with_curve_added(m, expr).curves.last().name == seq!['f'] + decimal(
            (m.curves.len() + 1) as nat,
        ) + seq!['(', 'x', ')'],
        with_curve_added(m, expr).curves.last().expr == expr,
        with_curve_added(m, expr).curves.last().visible,
        with_curve_added(m, expr).next_color_index == m.next_color_index + 1,
{
}

/// Restoring a saved session names each curve by its own place: a curve
/// saved with a blank name at place `i` comes back as `f{i+1}(x)`, a named
/// one keeps its name, and expressions and visibility come back unchanged,
/// in order.
pub proof fn law_restored_names_follow_places(
    stored: Seq<CurveModel>,
    samples: usize,
    dark_mode: bool,
    m: AppModel,
)
    requires
        stored.len() > 0,
        restored_session(stored, samples, dark_mode, m),
    ensures
        m.curves.len() == stored.len(),
        forall|i: int|
            0 <= i < stored.len() && blank(stored[i].name) ==> #[trigger] m.curves[i].name == seq![
                'f',
            ] + decimal((i + 1) as nat) + seq!['(', 'x', ')'],
        forall|i: int|
            0 <= i < stored.len() && !blank(stored[i].name) ==> #[trigger] m.curves[i].name
                == stored[i].name,
        forall|i: int|
            0 <= i < stored.len() ==> #[trigger] m.curves[i].expr == stored[i].expr
                && m.curves[i].visible == stored[i].visible,
        m.samples == clamped(samples as int),
        m.next_color_index == stored.len(),
{
    assert forall|i: int| 0 <= i < stored.len() implies #[trigger] m.curves[i].expr == stored[i].expr
        && m.curves[i].visible == stored[i].visible by {
        assert(brought_back(with_name(stored[i], i), m.curves[i]));
    }
    assert forall|i: int| 0 <= i < stored.len() && blank(stored[i].name) implies #[trigger] m.curves[i].name
        == seq!['f'] + decimal((i + 1) as nat) + seq!['(', 'x', ')'] by {
        assert(brought_back(with_name(stored[i], i), m.curves[i]));
    }
    assert forall|i: int| 0 <= i < stored.len() && !blank(stored[i].name) implies #[trigger] m.curves[i].name
        == stored[i].name by {
        assert(brought_back(with_name(stored[i], i), m.curves[i]));
    }
}

/// Compiling reports only visible curves: every prepared curve and the
/// curve named in the last error are visible with a non-blank expression,
/// and when every visible curve with an expression compiles there is no
/// last error, whatever the hidden curves hold.
pub proof fn law_hidden_curves_are_skipped(cs: Seq<CurveModel>)
    ensures
        forall|k: int|
            #![trigger drawn_indices(cs)[k]]
            0 <= k < drawn_indices(cs).len() ==> {
                let i = drawn_indices(cs)[k];
                &&& 0 <= i < cs.len()
                &&& cs[i].visible
                &&& !blank(cs[i].expr)
                &&& compiles(cs[i].expr)
            },
        first_index(|i: int| broken(cs[i]), cs.len()) matches Some(j) ==> {
            &&& 0 <= j < cs.len()
            &&& cs[j].visible
            &&& !blank(cs[j].expr)
            &&& !compiles(cs[j].expr)
        },
        (forall|i: int|
            0 <= i < cs.len() && cs[i].visible && !blank(cs[i].expr) ==> compiles(
                #[trigger] cs[i].expr,
            )) ==> first_index(|i: int| broken(cs[i]), cs.len()) == None::<int>,
        (forall|i: int|
            0 <= i < cs.len() && cs[i].visible && !blank(cs[i].expr) ==> compiles(
                #[trigger] cs[i].expr,
            )) ==> drawn_indices(cs).len() == count_visible_named(cs,
            cs.len()),
{
    lemma_kept_indices_hit(|i: int| drawn(cs[i]), cs.len());
    assert(drawn_indices(cs) == kept_indices(|i: int| drawn(cs[i]), cs.len()));
    lemma_first_index_hits(|i: int| broken(cs[i]), cs.len());
    if forall|i: int|
        0 <= i < cs.len() && cs[i].visible && !blank(cs[i].expr) ==> compiles(
            #[trigger] cs[i].expr,
        ) {
        lemma_kept_count(cs, cs.len());
    }
}

/// The places of the curves that are drawn, in order.
pub open spec fn drawn_indices(cs: Seq<CurveModel>) -> Seq<int> {
    kept_indices(|i: int| drawn(cs[i]), cs.len())
}

/// How many of the first `n` curves are visible with a non-blank
/// expression.
pub open spec fn count_visible_named(cs: Seq<CurveModel>, n: nat) -> nat
    decreases n,
{
    if n == 0 {
        0
    } else {
        count_visible_named(cs, (n - 1) as nat) + if cs[n - 1].visible && !blank(cs[n - 1].expr) {
            1nat
        } else {
            0nat
        }
    }
}

/// When every visible named curve compiles, every one of them is drawn.
proof fn lemma_kept_count(cs: Seq<CurveModel>, n: nat)
    requires
        n <= cs.len(),
        forall|i: int|
            0 <= i < cs.len() && cs[i].visible && !blank(cs[i].expr) ==> compiles(
                #[trigger] cs[i].expr,
            ),
    ensures
        kept_indices(|i: int| drawn(cs[i]), n).len() == count_visible_named(cs, n),
    decreases n,
{
    if n > 0 {
        lemma_kept_count(cs, (n - 1) as nat);
        let i = n - 1;
        if cs[i].visible && !blank(cs[i].expr) {
            assert(compiles(cs[i].expr));
        }
    }
}

} // verus!
