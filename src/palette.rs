//! Colour palette of the trace viewer and the categories of runtime events.

use vstd::prelude::*;

verus! {

/// Number of colour names in the palette.
pub const PALETTE_SIZE: usize = 29;

/// Colour name at position `i` of the palette.
pub open spec fn palette_entry(i: nat) -> Seq<char> {
    if i == 0 {
        "thread_state_uninterruptible"@
    } else if i == 1 {
        "thread_state_iowait"@
    } else if i == 2 {
        "thread_state_running"@
    } else if i == 3 {
        "thread_state_runnable"@
    } else if i == 4 {
        "thread_state_unknown"@
    } else if i == 5 {
        "background_memory_dump"@
    } else if i == 6 {
        "detailed_memory_dump"@
    } else if i == 7 {
        "vsync_highlight_color"@
    } else if i == 8 {
        "generic_work"@
    } else if i == 9 {
        "good"@
    } else if i == 10 {
        "bad"@
    } else if i == 11 {
        "grey"@
    } else if i == 12 {
        "yellow"@
    } else if i == 13 {
        "olive"@
    } else if i == 14 {
        "rail_response"@
    } else if i == 15 {
        "rail_animation"@
    } else if i == 16 {
        "rail_idle"@
    } else if i == 17 {
        "rail_load"@
    } else if i == 18 {
        "startup"@
    } else if i == 19 {
        "heap_dump_stack_frame"@
    } else if i == 20 {
        "heap_dump_object_type"@
    } else if i == 21 {
        "heap_dump_child_node_arrow"@
    } else if i == 22 {
        "cq_build_running"@
    } else if i == 23 {
        "cq_build_passed"@
    } else if i == 24 {
        "cq_build_failed"@
    } else if i == 25 {
        "cq_build_abandoned"@
    } else if i == 26 {
        "cq_build_attempt_runnig"@
    } else if i == 27 {
        "cq_build_attempt_passed"@
    } else {
        "cq_build_attempt_failed"@
    }
}

/// Colour name at position `i` of the palette.
pub fn palette_color(i: usize) -> (r: String)
    requires
        i < PALETTE_SIZE,
    ensures
        r@ == palette_entry(i as nat),
{
    if i == 0 {
        String::from_str("thread_state_uninterruptible")
    } else if i == 1 {
        String::from_str("thread_state_iowait")
    } else if i == 2 {
        String::from_str("thread_state_running")
    } else if i == 3 {
        String::from_str("thread_state_runnable")
    } else if i == 4 {
        String::from_str("thread_state_unknown")
    } else if i == 5 {
        String::from_str("background_memory_dump")
    } else if i == 6 {
        String::from_str("detailed_memory_dump")
    } else if i == 7 {
        String::from_str("vsync_highlight_color")
    } else if i == 8 {
        String::from_str("generic_work")
    } else if i == 9 {
        String::from_str("good")
    } else if i == 10 {
        String::from_str("bad")
    } else if i == 11 {
        String::from_str("grey")
    } else if i == 12 {
        String::from_str("yellow")
    } else if i == 13 {
        String::from_str("olive")
    } else if i == 14 {
        String::from_str("rail_response")
    } else if i == 15 {
        String::from_str("rail_animation")
    } else if i == 16 {
        String::from_str("rail_idle")
    } else if i == 17 {
        String::from_str("rail_load")
    } else if i == 18 {
        String::from_str("startup")
    } else if i == 19 {
        String::from_str("heap_dump_stack_frame")
    } else if i == 20 {
        String::from_str("heap_dump_object_type")
    } else if i == 21 {
        String::from_str("heap_dump_child_node_arrow")
    } else if i == 22 {
        String::from_str("cq_build_running")
    } else if i == 23 {
        String::from_str("cq_build_passed")
    } else if i == 24 {
        String::from_str("cq_build_failed")
    } else if i == 25 {
        String::from_str("cq_build_abandoned")
    } else if i == 26 {
        String::from_str("cq_build_attempt_runnig")
    } else if i == 27 {
        String::from_str("cq_build_attempt_passed")
    } else {
        String::from_str("cq_build_attempt_failed")
    }
}

/// The closed set of runtime event categories.
#[derive(Debug, Clone, Copy, PartialEq, Eq, Structural)]
pub enum Category {
    FirmwareInference,
    FirmwareUpdateProgress,
    FirmwareWfe,
    FirmwareDmaReadSetup,
    FirmwareDmaRead,
    FirmwareDmaWriteSetup,
    FirmwareDmaWrite,
    FirmwareMceStripeSetup,
    FirmwareMceStripe,
    FirmwarePleStripeSetup,
    FirmwarePleStripe,
    FirmwareUdma,
    FirmwareLabel,
    InferenceLifetime,
    BufferLifetime,
}

/// The name under which a category appears in the runtime log.
pub open spec fn category_name(c: Category) -> Seq<char> {
    match c {
        Category::FirmwareInference => "FirmwareInference"@,
        Category::FirmwareUpdateProgress => "FirmwareUpdateProgress"@,
        Category::FirmwareWfe => "FirmwareWfe"@,
        Category::FirmwareDmaReadSetup => "FirmwareDmaReadSetup"@,
        Category::FirmwareDmaRead => "FirmwareDmaRead"@,
        Category::FirmwareDmaWriteSetup => "FirmwareDmaWriteSetup"@,
        Category::FirmwareDmaWrite => "FirmwareDmaWrite"@,
        Category::FirmwareMceStripeSetup => "FirmwareMceStripeSetup"@,
        Category::FirmwareMceStripe => "FirmwareMceStripe"@,
        Category::FirmwarePleStripeSetup => "FirmwarePleStripeSetup"@,
        Category::FirmwarePleStripe => "FirmwarePleStripe"@,
        Category::FirmwareUdma => "FirmwareUdma"@,
        Category::FirmwareLabel => "FirmwareLabel"@,
        Category::InferenceLifetime => "InferenceLifetime"@,
        Category::BufferLifetime => "BufferLifetime"@,
    }
}

/// The category that the runtime log calls `s`, if any.
pub open spec fn category_of(s: Seq<char>) -> Option<Category> {
    if s == "FirmwareInference"@ {
        Some(Category::FirmwareInference)
    } else if s == "FirmwareUpdateProgress"@ {
        Some(Category::FirmwareUpdateProgress)
    } else if s == "FirmwareWfe"@ {
        Some(Category::FirmwareWfe)
    } else if s == "FirmwareDmaReadSetup"@ {
        Some(Category::FirmwareDmaReadSetup)
    } else if s == "FirmwareDmaRead"@ {
        Some(Category::FirmwareDmaRead)
    } else if s == "FirmwareDmaWriteSetup"@ {
        Some(Category::FirmwareDmaWriteSetup)
    } else if s == "FirmwareDmaWrite"@ {
        Some(Category::FirmwareDmaWrite)
    } else if s == "FirmwareMceStripeSetup"@ {
        Some(Category::FirmwareMceStripeSetup)
    } else if s == "FirmwareMceStripe"@ {
        Some(Category::FirmwareMceStripe)
    } else if s == "FirmwarePleStripeSetup"@ {
        Some(Category::FirmwarePleStripeSetup)
    } else if s == "FirmwarePleStripe"@ {
        Some(Category::FirmwarePleStripe)
    } else if s == "FirmwareUdma"@ {
        Some(Category::FirmwareUdma)
    } else if s == "FirmwareLabel"@ {
        Some(Category::FirmwareLabel)
    } else if s == "InferenceLifetime"@ {
        Some(Category::InferenceLifetime)
    } else if s == "BufferLifetime"@ {
        Some(Category::BufferLifetime)
    } else {
        None
    }
}

/// Recognises a category by its name.
pub fn category_from_name(s: &str) -> (r: Option<Category>)
    ensures
        r == category_of(s@),
{
    if crate::text::same_text(s, "FirmwareInference") {
        Some(Category::FirmwareInference)
    } else if crate::text::same_text(s, "FirmwareUpdateProgress") {
        Some(Category::FirmwareUpdateProgress)
    } else if crate::text::same_text(s, "FirmwareWfe") {
        Some(Category::FirmwareWfe)
    } else if crate::text::same_text(s, "FirmwareDmaReadSetup") {
        Some(Category::FirmwareDmaReadSetup)
    } else if crate::text::same_text(s, "FirmwareDmaRead") {
        Some(Category::FirmwareDmaRead)
    } else if crate::text::same_text(s, "FirmwareDmaWriteSetup") {
        Some(Category::FirmwareDmaWriteSetup)
    } else if crate::text::same_text(s, "FirmwareDmaWrite") {
        Some(Category::FirmwareDmaWrite)
    } else if crate::text::same_text(s, "FirmwareMceStripeSetup") {
        Some(Category::FirmwareMceStripeSetup)
    } else if crate::text::same_text(s, "FirmwareMceStripe") {
        Some(Category::FirmwareMceStripe)
    } else if crate::text::same_text(s, "FirmwarePleStripeSetup") {
        Some(Category::FirmwarePleStripeSetup)
    } else if crate::text::same_text(s, "FirmwarePleStripe") {
        Some(Category::FirmwarePleStripe)
    } else if crate::text::same_text(s, "FirmwareUdma") {
        Some(Category::FirmwareUdma)
    } else if crate::text::same_text(s, "FirmwareLabel") {
        Some(Category::FirmwareLabel)
    } else if crate::text::same_text(s, "InferenceLifetime") {
        Some(Category::InferenceLifetime)
    } else if crate::text::same_text(s, "BufferLifetime") {
        Some(Category::BufferLifetime)
    } else {
        None
    }
}

/// The name of category `c`.
pub fn category_text(c: Category) -> (r: String)
    ensures
        r@ == category_name(c),
{
    match c {
        Category::FirmwareInference => String::from_str("FirmwareInference"),
        Category::FirmwareUpdateProgress => String::from_str("FirmwareUpdateProgress"),
        Category::FirmwareWfe => String::from_str("FirmwareWfe"),
        Category::FirmwareDmaReadSetup => String::from_str("FirmwareDmaReadSetup"),
        Category::FirmwareDmaRead => String::from_str("FirmwareDmaRead"),
        Category::FirmwareDmaWriteSetup => String::from_str("FirmwareDmaWriteSetup"),
        Category::FirmwareDmaWrite => String::from_str("FirmwareDmaWrite"),
        Category::FirmwareMceStripeSetup => String::from_str("FirmwareMceStripeSetup"),
        Category::FirmwareMceStripe => String::from_str("FirmwareMceStripe"),
        Category::FirmwarePleStripeSetup => String::from_str("FirmwarePleStripeSetup"),
        Category::FirmwarePleStripe => String::from_str("FirmwarePleStripe"),
        Category::FirmwareUdma => String::from_str("FirmwareUdma"),
        Category::FirmwareLabel => String::from_str("FirmwareLabel"),
        Category::InferenceLifetime => String::from_str("InferenceLifetime"),
        Category::BufferLifetime => String::from_str("BufferLifetime"),
    }
}

} // verus!
