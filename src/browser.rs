use vstd::prelude::*;

use crate::coordinate::Coordinate;

verus! {

#[verifier::external_type_specification]
#[verifier::external_body]
pub struct ExWindow(web_sys::Window);

#[verifier::external_type_specification]
#[verifier::external_body]
pub struct ExJsValue(wasm_bindgen::JsValue);

/// Relies on `web_sys::Window::inner_width`: the window's `innerWidth`, or `None` where the
/// browser throws instead.
#[verifier::external_body]
fn inner_width(window: &web_sys::Window) -> Option<wasm_bindgen::JsValue> {
    window.inner_width().ok()
}

/// Relies on `web_sys::Window::inner_height`: the window's `innerHeight`, or `None` where the
/// browser throws instead.
#[verifier::external_body]
fn inner_height(window: &web_sys::Window) -> Option<wasm_bindgen::JsValue> {
    window.inner_height().ok()
}

/// Relies on `wasm_bindgen::JsValue::as_f64`: the number a JS value holds, if it is one,
/// converted to whole pixels (saturating at the ends of `u32`).
#[verifier::external_body]
fn js_pixels(value: &wasm_bindgen::JsValue) -> Option<u32> {
    match value.as_f64() {
        Some(n) => Some(n as u32),
        None => None,
    }
}

/// The inner height of the browser window in whole pixels, or `None` where the browser gives
/// no number for it.
pub fn get_height(window: &web_sys::Window) -> Option<u32> {
    match inner_height(window) {
        Some(v) => js_pixels(&v),
        None => None,
    }
}

/// The inner width of the browser window in whole pixels, or `None` where the browser gives
/// no number for it.
pub fn get_width(window: &web_sys::Window) -> Option<u32> {
    match inner_width(window) {
        Some(v) => js_pixels(&v),
        None => None,
    }
}

/// The middle of the browser window, in whole pixels from its top-left corner, or `None`
/// where the browser gives no number for its width or height.
pub fn get_center_coordinate(window: &web_sys::Window) -> (r: Option<Coordinate>)
    ensures
        r matches Some(c) ==> 0 <= c.x <= u32::MAX / 2 && 0 <= c.y <= u32::MAX / 2,
{
    match (get_width(window), get_height(window)) {
        (Some(w), Some(h)) => Some(Coordinate { x: (w / 2) as i64, y: (h / 2) as i64 }),
        _ => None,
    }
}

} // verus!
