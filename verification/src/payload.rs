//! Whole payloads: the header followed by the bitmap data of each message.
use crate::font::Font;
use crate::protocol::{
    clamp_u8, header_bytes, speed_mode_byte, ClockReading, DisplayMode, MessageConfig,
    ProtocolHeader, MAX_MESSAGES,
};
use crate::renderer::{render_text, rendering};
use crate::usb::{concat_all, write_outcome, UsbConnection, UsbError, WriteRequest};
use vstd::prelude::*;

verus! {

/// The bitmap data of each message, rendered with font model `f`.
pub open spec fn rendered_data(f: crate::font::FontModel, messages: Seq<Seq<char>>) -> Seq<Seq<u8>> {
    messages.map_values(|m: Seq<char>| rendering(f, m).0)
}

/// The header entries of the messages: the given settings and each
/// message's width, for the first eight messages.
pub open spec fn header_entries(
    f: crate::font::FontModel,
    messages: Seq<Seq<char>>,
    config: MessageConfig,
) -> Seq<(MessageConfig, usize)> {
    let n = if messages.len() < MAX_MESSAGES {
        messages.len()
    } else {
        MAX_MESSAGES as nat
    };
    Seq::new(n, |i: int| (config, rendering(f, messages[i]).1 as usize))
}

/// The payload for the messages with the given brightness, settings and clock reading.
pub open spec fn payload_bytes(
    f: crate::font::FontModel,
    messages: Seq<Seq<char>>,
    brightness: u8,
    config: MessageConfig,
    t: ClockReading,
) -> Seq<u8> {
    header_bytes(clamp_u8(brightness, 25, 100), header_entries(f, messages, config), t)
        + concat_all(rendered_data(f, messages))
}

/// Every message listed in a composed payload's header carries the given
/// settings: its speed/mode byte has the mode's number as low nibble and the
/// clamped speed minus one as high nibble.
pub proof fn lemma_payload_settings(
    f: crate::font::FontModel,
    messages: Seq<Seq<char>>,
    brightness: u8,
    config: MessageConfig,
    t: ClockReading,
    i: int,
)
    requires
        0 <= i < messages.len(),
        i < MAX_MESSAGES,
    ensures
        payload_bytes(f, messages, brightness, config, t)[8 + i] == speed_mode_byte(config),
        payload_bytes(f, messages, brightness, config, t)[8 + i] & 0x0f == config.mode.spec_code(),
        (payload_bytes(f, messages, brightness, config, t)[8 + i] >> 4u8) + 1 == clamp_u8(
            config.speed,
            1,
            8,
        ),
{
    let entries = header_entries(f, messages, config);
    assert(entries[i].0 == config);
    crate::protocol::lemma_header_mode_nibble(clamp_u8(brightness, 25, 100), entries, t, i);
    crate::protocol::lemma_speed_mode_nibbles(config);
}

/// The views of a vector of strings.
pub open spec fn message_views(v: Seq<String>) -> Seq<Seq<char>> {
    v.map_values(|s: String| s@)
}

/// Renders every message and puts them behind one header: each message
/// gets the same settings, the header lists the first eight, and the data
/// of all of them follows.
pub fn compose_payload_at(
    font: &Font,
    messages: &Vec<String>,
    brightness: u8,
    config: MessageConfig,
    t: ClockReading,
) -> (payload: Vec<u8>)
    ensures
        payload@ == payload_bytes(font@, message_views(messages@), brightness, config, t),
        payload@.len() >= 64,
        payload@.take(4) == seq![0x77u8, 0x61u8, 0x6eu8, 0x67u8],
        forall|i: int|
            0 <= i < messages@.len() && i < MAX_MESSAGES ==> #[trigger] payload@[8 + i]
                == speed_mode_byte(config),
        forall|i: int|
            0 <= i < messages@.len() && i < MAX_MESSAGES ==> #[trigger] payload@[8 + i] & 0x0f
                == config.mode.spec_code(),
        forall|i: int|
            messages@.len() <= i < MAX_MESSAGES ==> #[trigger] payload@[8 + i] == 0x30,
{
    let ghost ms = message_views(messages@);
    let mut header = ProtocolHeader::new().brightness(brightness);
    let mut data: Vec<u8> = Vec::new();
    let n = messages.len();
    let mut i: usize = 0;
    while i < n
        invariant
            i <= n,
            n == messages@.len(),
            ms == message_views(messages@),
            header@.0 == clamp_u8(brightness, 25, 100),
            header@.1 == header_entries(font@, ms.take(i as int), config),
            data@ == concat_all(rendered_data(font@, ms.take(i as int))),
        decreases n - i,
    {
        let bitmap = render_text(font, messages[i].as_str());
        let ghost before = header@.1;
        header = header.add_message(config, bitmap.width_columns);
        let ghost old_data = data@;
        data.extend_from_slice(bitmap.data.as_slice());
        proof {
            assert(data@ =~= old_data + bitmap.data@);
            assert(ms.take(i + 1).drop_last() =~= ms.take(i as int));
            assert(ms.take(i + 1).last() == messages@[i as int]@);
            assert(rendered_data(font@, ms.take(i + 1)).drop_last() =~= rendered_data(
                font@,
                ms.take(i as int),
            ));
            assert(header@.1 =~= header_entries(font@, ms.take(i + 1), config));
        }
        i = i + 1;
    }
    assert(ms.take(n as int) =~= ms);
    let bytes = header.build_at(t);
    let mut payload: Vec<u8> = Vec::new();
    payload.extend_from_slice(bytes.as_slice());
    payload.extend_from_slice(data.as_slice());
    assert(payload@ =~= payload_bytes(font@, ms, brightness, config, t));
    proof {
        let entries = header_entries(font@, ms, config);
        let h = header_bytes(clamp_u8(brightness, 25, 100), entries, t);
        assert(payload@.take(4) =~= seq![0x77u8, 0x61u8, 0x6eu8, 0x67u8]);
        assert forall|i: int|
            0 <= i < messages@.len() && i < MAX_MESSAGES implies #[trigger] payload@[8 + i]
            == speed_mode_byte(config) && payload@[8 + i] & 0x0f == config.mode.spec_code() by {
            assert(payload@[8 + i] == h[8 + i]);
            assert(entries[i].0 == config);
            crate::protocol::lemma_speed_mode_nibbles(config);
        }
        assert forall|i: int| messages@.len() <= i < MAX_MESSAGES implies #[trigger] payload@[8 + i]
            == 0x30 by {
            assert(payload@[8 + i] == h[8 + i]);
        }
    }
    payload
}

/// `compose_payload_at` with the local time in the header.
pub fn compose_payload(font: &Font, messages: &Vec<String>, brightness: u8, config: MessageConfig) -> (payload: Vec<u8>)
    ensures
        exists|t: ClockReading|
            t.is_valid() && payload@ == payload_bytes(
                font@,
                message_views(messages@),
                brightness,
                config,
                t,
            ),
        forall|i: int|
            0 <= i < messages@.len() && i < MAX_MESSAGES ==> #[trigger] payload@[8 + i] & 0x0f
                == config.mode.spec_code(),
{
    let t = crate::protocol::local_clock();
    compose_payload_at(font, messages, brightness, config, t)
}

/// The settings of monitor messages: speed 4, scrolling left, no blinking, no border.
pub open spec fn monitor_message_config() -> MessageConfig {
    MessageConfig { speed: 4, mode: DisplayMode::ScrollLeft, blink: false, animated_border: false }
}

/// The write that shows `message` on the badge at full brightness with the
/// monitor's settings (what the monitor sends on each update).
pub fn prepare_badge_write(usb: &UsbConnection, font: &Font, message: &String) -> (r: Result<WriteRequest, UsbError>)
    ensures
        exists|payload: Seq<u8>|
            {
                &&& exists|t: ClockReading|
                    t.is_valid() && payload == payload_bytes(
                        font@,
                        seq![message@],
                        100,
                        monitor_message_config(),
                        t,
                    )
                &&& write_outcome(usb, None, payload, r)
            },
{
    let mut messages: Vec<String> = Vec::new();
    messages.push(message.clone());
    let config = MessageConfig {
        speed: 4,
        mode: DisplayMode::ScrollLeft,
        blink: false,
        animated_border: false,
    };
    let payload = compose_payload(font, &messages, 100, config);
    assert(message_views(messages@) =~= seq![message@]);
    usb.prepare_write(None, payload.as_slice())
}

} // verus!
