use crate::text::text_eq;
use vstd::prelude::*;

verus! {

/// Known inline event-handler attribute names.
pub const EVENT_ATTRIBUTES: [&'static str; 100] = [
    "onbeforexrselect",
    "onabort",
    "onbeforeinput",
    "onbeforematch",
    "onbeforetoggle",
    "onblur",
    "oncancel",
    "oncanplay",
    "oncanplaythrough",
    "onchange",
    "onclick",
    "onclose",
    "oncontentvisibilityautostatechange",
    "oncontextlost",
    "oncontextmenu",
    "oncontextrestored",
    "oncuechange",
    "ondblclick",
    "ondrag",
    "ondragend",
    "ondragenter",
    "ondragleave",
    "ondragover",
    "ondragstart",
    "ondrop",
    "ondurationchange",
    "onemptied",
    "onended",
    "onerror",
    "onfocus",
    "onformdata",
    "oninput",
    "oninvalid",
    "onkeydown",
    "onkeypress",
    "onkeyup",
    "onload",
    "onloadeddata",
    "onloadedmetadata",
    "onloadstart",
    "onmousedown",
    "onmouseenter",
    "onmouseleave",
    "onmousemove",
    "onmouseout",
    "onmouseover",
    "onmouseup",
    "onmousewheel",
    "onpause",
    "onplay",
    "onplaying",
    "onprogress",
    "onratechange",
    "onreset",
    "onresize",
    "onscroll",
    "onsecuritypolicyviolation",
    "onseeked",
    "onseeking",
    "onselect",
    "onslotchange",
    "onstalled",
    "onsubmit",
    "onsuspend",
    "ontimeupdate",
    "ontoggle",
    "onvolumechange",
    "onwaiting",
    "onwebkitanimationend",
    "onwebkitanimationiteration",
    "onwebkitanimationstart",
    "onwebkittransitionend",
    "onwheel",
    "onauxclick",
    "ongotpointercapture",
    "onlostpointercapture",
    "onpointerdown",
    "onpointermove",
    "onpointerrawupdate",
    "onpointerup",
    "onpointercancel",
    "onpointerover",
    "onpointerout",
    "onpointerenter",
    "onpointerleave",
    "onselectstart",
    "onselectionchange",
    "onanimationend",
    "onanimationiteration",
    "onanimationstart",
    "ontransitionrun",
    "ontransitionstart",
    "ontransitionend",
    "ontransitioncancel",
    "oncopy",
    "oncut",
    "onpaste",
    "onscrollend",
    "onscrollsnapchange",
    "onscrollsnapchanging",
];

/// Whether a name is one of `EVENT_ATTRIBUTES` (exact, case-sensitive match).
pub open spec fn is_event_name(name: Seq<char>) -> bool {
    exists|i: int| 0 <= i < 100 && (#[trigger] EVENT_ATTRIBUTES@[i])@ == name
}

/// Computes `is_event_name`.
pub fn is_event_attribute(name: &str) -> (r: bool)
    ensures
        r == is_event_name(name@),
{
    let mut i: usize = 0;
    while i < 100
        invariant
            i <= 100,
            forall|k: int| 0 <= k < i ==> (#[trigger] EVENT_ATTRIBUTES@[k])@ != name@,
        decreases 100 - i,
    {
        if text_eq(EVENT_ATTRIBUTES[i], name) {
            return true;
        }
        i = i + 1;
    }
    false
}

} // verus!
