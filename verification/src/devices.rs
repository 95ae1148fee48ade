//! The devices that the debug bridge lists.
//!
//! The listing is text: a header line, then one line for each device with its
//! serial, its state and pairs of the form `key:value`.

use vstd::prelude::*;
use crate::text::{
    chars_of, copy_range, has_prefix_at, is_plain_line, lemma_filter_map_concat,
    is_word, lemma_filter_map_keeps_all, lemma_final_feed_is_optional, lemma_lines_of_unlines,
    lemma_unwords_is_plain, lemma_words_of_unwords, lines, seqs, split_lines, split_words,
    starts_with, string_of, unlines, unwords, words,
};
use crate::tool::{command, ToolCommand, ToolOutcome};

verus! {

/// A device as the debug bridge reports it.
#[derive(Debug)]
pub struct Device {
    /// The identifier by which the bridge addresses the device.
    pub serial: String,
    /// The connection state, such as `device` or `unauthorized`.
    pub state: String,
    /// The model name, where the listing gives one.
    pub model: Option<String>,
}

/// The text of a device record.
pub struct DeviceView {
    pub serial: Seq<char>,
    pub state: Seq<char>,
    pub model: Option<Seq<char>>,
}

impl View for Device {
    type V = DeviceView;

    open spec fn view(&self) -> DeviceView {
        DeviceView {
            serial: self.serial@,
            state: self.state@,
            model: match self.model {
                Some(m) => Some(m@),
                None => None,
            },
        }
    }
}

/// The views of a sequence of devices.
pub open spec fn device_views(v: Seq<Device>) -> Seq<DeviceView> {
    v.map_values(|d: Device| d@)
}

/// The key that introduces the model name.
pub open spec fn model_key() -> Seq<char> {
    "model:"@
}

/// The model name among the words of a device line: what follows the key in
/// the last word that begins with it, the serial and the state left aside.
pub open spec fn model_of(tokens: Seq<Seq<char>>) -> Option<Seq<char>>
    decreases tokens.len(),
{
    if tokens.len() <= 2 {
        None
    } else if starts_with(tokens.last(), model_key()) {
        Some(tokens.last().skip(model_key().len() as int))
    } else {
        model_of(tokens.drop_last())
    }
}

/// The device that a line of the listing describes. A line of fewer than two
/// words describes none.
pub open spec fn parse_device_line(line: Seq<char>) -> Option<DeviceView> {
    let tokens = words(line);
    if tokens.len() < 2 {
        None
    } else {
        Some(DeviceView { serial: tokens[0], state: tokens[1], model: model_of(tokens) })
    }
}

/// `parse_device_line` as a function value.
pub open spec fn device_of_line() -> spec_fn(Seq<char>) -> Option<DeviceView> {
    |line: Seq<char>| parse_device_line(line)
}

/// The lines of a listing that follow its header.
pub open spec fn device_lines(listing: Seq<char>) -> Seq<Seq<char>> {
    let all = lines(listing);
    if all.len() == 0 {
        all
    } else {
        all.skip(1)
    }
}

/// The devices of a listing: one for each line after the header that
/// describes a device, in the order of the lines.
pub open spec fn parse_devices(listing: Seq<char>) -> Seq<DeviceView> {
    device_lines(listing).filter_map(device_of_line())
}

/// What the enumeration returns for an outcome of the listing tool: the reason
/// where the tool could not be started, its error text where it exited with a
/// status other than zero, and the devices of its listing otherwise.
pub open spec fn enumeration(outcome: ToolOutcome) -> Result<Seq<DeviceView>, Seq<char>> {
    match outcome {
        Err(reason) => Err(reason@),
        Ok(output) => if output.success {
            Ok(parse_devices(output.stdout@))
        } else {
            Err(output.stderr@)
        },
    }
}

/// The text of the result of an enumeration.
pub open spec fn enumeration_view(r: Result<Vec<Device>, String>) -> Result<
    Seq<DeviceView>,
    Seq<char>,
> {
    match r {
        Ok(devices) => Ok(device_views(devices@)),
        Err(message) => Err(message@),
    }
}

/// The text of a listing: its header line and the lines `body` after it.
pub open spec fn listing_text(header: Seq<char>, body: Seq<Seq<char>>) -> Seq<char> {
    unlines(seq![header] + body)
}

/// The lines after the header of a listing made of plain lines are the lines
/// it was made of.
pub proof fn lemma_device_lines_of_listing(header: Seq<char>, body: Seq<Seq<char>>)
    requires
        is_plain_line(header),
        forall|i: int| 0 <= i < body.len() ==> is_plain_line(#[trigger] body[i]),
    ensures
        device_lines(listing_text(header, body)) == body,
{
    let all = seq![header] + body;
    assert forall|i: int| 0 <= i < all.len() implies is_plain_line(#[trigger] all[i]) by {
        if i > 0 {
            assert(all[i] == body[i - 1]);
        }
    }
    lemma_lines_of_unlines(all);
    assert(all.skip(1) =~= body);
}

/// A listing of a header and device lines yields one record for each device
/// line, in the order of the lines.
pub proof fn law_devices_in_order(header: Seq<char>, body: Seq<Seq<char>>)
    requires
        is_plain_line(header),
        forall|i: int| 0 <= i < body.len() ==> is_plain_line(#[trigger] body[i]),
        forall|i: int| 0 <= i < body.len() ==> parse_device_line(#[trigger] body[i]) is Some,
    ensures
        parse_devices(listing_text(header, body)).len() == body.len(),
        forall|i: int|
            0 <= i < body.len() ==> #[trigger] parse_devices(listing_text(header, body))[i]
                == parse_device_line(body[i])->0,
{
    lemma_device_lines_of_listing(header, body);
    assert forall|i: int| 0 <= i < body.len() implies device_of_line()(#[trigger] body[i])
        is Some by {
        assert(parse_device_line(body[i]) is Some);
    }
    lemma_filter_map_keeps_all(body, device_of_line());
}

/// A line of fewer than two words, a blank one among them, is skipped, and
/// the records of the other lines are what they are without it.
pub proof fn law_short_lines_are_skipped(
    header: Seq<char>,
    before: Seq<Seq<char>>,
    skipped: Seq<char>,
    after: Seq<Seq<char>>,
)
    requires
        is_plain_line(header),
        is_plain_line(skipped),
        forall|i: int| 0 <= i < before.len() ==> is_plain_line(#[trigger] before[i]),
        forall|i: int| 0 <= i < after.len() ==> is_plain_line(#[trigger] after[i]),
        words(skipped).len() < 2,
    ensures
        parse_devices(listing_text(header, before + seq![skipped] + after)) == parse_devices(
            listing_text(header, before + after),
        ),
{
    let f = device_of_line();
    let with = before + seq![skipped] + after;
    let without = before + after;
    assert forall|i: int| 0 <= i < with.len() implies is_plain_line(#[trigger] with[i]) by {
        if i < before.len() {
            assert(with[i] == before[i]);
        } else if i == before.len() {
            assert(with[i] == skipped);
        } else {
            assert(with[i] == after[i - before.len() - 1]);
        }
    }
    assert forall|i: int| 0 <= i < without.len() implies is_plain_line(#[trigger] without[i]) by {
        if i < before.len() {
            assert(without[i] == before[i]);
        } else {
            assert(without[i] == after[i - before.len()]);
        }
    }
    lemma_device_lines_of_listing(header, with);
    lemma_device_lines_of_listing(header, without);
    lemma_filter_map_concat(before + seq![skipped], after, f);
    lemma_filter_map_concat(before, seq![skipped], f);
    lemma_filter_map_concat(before, after, f);
    assert(f(skipped) is None);
    Seq::lemma_filter_map_singleton(skipped, f);
    assert(before.filter_map(f) + seq![skipped].filter_map(f) =~= before.filter_map(f));
}

/// The line feed at the end of a listing is optional: a listing that ends in
/// neither a line feed nor a carriage return yields the same devices with a
/// line feed after it.
pub proof fn law_final_feed_is_optional(listing: Seq<char>)
    requires
        listing.len() > 0,
        listing.last() != '\n',
        listing.last() != '\r',
    ensures
        parse_devices(listing + seq!['\n']) == parse_devices(listing),
{
    lemma_final_feed_is_optional(listing);
}

/// A line made of a serial, a state and further words, with one space between
/// two of them, describes the device with that serial and that state, and
/// with the model that the further words tell.
pub proof fn law_device_line_of_words(tokens: Seq<Seq<char>>)
    requires
        tokens.len() >= 2,
        forall|i: int| 0 <= i < tokens.len() ==> is_word(#[trigger] tokens[i]),
    ensures
        is_plain_line(unwords(tokens)),
        parse_device_line(unwords(tokens)) == Some(
            DeviceView { serial: tokens[0], state: tokens[1], model: model_of(tokens) },
        ),
{
    lemma_words_of_unwords(tokens);
    lemma_unwords_is_plain(tokens);
}

/// The model of a device line is what follows the key in the last word after
/// the state that begins with the key; where no such word begins with the
/// key, the line has no model.
pub proof fn law_model_of_line(tokens: Seq<Seq<char>>)
    ensures
        match model_of(tokens) {
            Some(model) => exists|i: int|
                2 <= i < tokens.len() && #[trigger] tokens[i] == model_key() + model && forall|
                    j: int,
                |
                    i < j < tokens.len() ==> !starts_with(#[trigger] tokens[j], model_key()),
            None => forall|i: int|
                2 <= i < tokens.len() ==> !starts_with(#[trigger] tokens[i], model_key()),
        },
    decreases tokens.len(),
{
    if tokens.len() <= 2 {
    } else if starts_with(tokens.last(), model_key()) {
        let i = tokens.len() - 1;
        let model = tokens.last().skip(model_key().len() as int);
        assert(tokens[i] =~= model_key() + model);
    } else {
        let front = tokens.drop_last();
        law_model_of_line(front);
        match model_of(front) {
            Some(model) => {
                let i = choose|i: int|
                    2 <= i < front.len() && #[trigger] front[i] == model_key() + model && forall|
                        j: int,
                    |
                        i < j < front.len() ==> !starts_with(#[trigger] front[j], model_key());
                assert(tokens[i] == front[i]);
                assert forall|j: int| i < j < tokens.len() implies !starts_with(
                    #[trigger] tokens[j],
                    model_key(),
                ) by {
                    if j < front.len() {
                        assert(tokens[j] == front[j]);
                    }
                }
            },
            None => {
                assert forall|i: int| 2 <= i < tokens.len() implies !starts_with(
                    #[trigger] tokens[i],
                    model_key(),
                ) by {
                    if i < front.len() {
                        assert(tokens[i] == front[i]);
                    }
                }
            },
        }
    }
}

/// Reads the model name off the words of a device line.
fn find_model(tokens: &Vec<Vec<char>>) -> (model: Option<String>)
    ensures
        match model {
            Some(m) => model_of(seqs(tokens@)) == Some(m@),
            None => model_of(seqs(tokens@)) is None,
        },
{
    let key = chars_of("model:");
    let mut model: Option<String> = None;
    let mut i: usize = 2;
    if tokens.len() <= 2 {
        return None;
    }
    assert(model_of(seqs(tokens@).take(2)) is None);
    while i < tokens.len()
        invariant
            2 <= i <= tokens.len(),
            key@ == model_key(),
            match model {
                Some(m) => model_of(seqs(tokens@).take(i as int)) == Some(m@),
                None => model_of(seqs(tokens@).take(i as int)) is None,
            },
        decreases tokens.len() - i,
    {
        let ghost upto = seqs(tokens@).take(i + 1);
        assert(upto.drop_last() =~= seqs(tokens@).take(i as int));
        assert(upto.last() == tokens@[i as int]@);
        let token = tokens[i].as_slice();
        assert(token@.skip(0) =~= token@);
        if has_prefix_at(token, 0, key.as_slice()) {
            let value = copy_range(token, key.len(), token.len());
            assert(value@ =~= token@.skip(model_key().len() as int));
            model = Some(string_of(value.as_slice()));
        }
        i += 1;
    }
    assert(seqs(tokens@).take(i as int) =~= seqs(tokens@));
    model
}

/// Reads one line of the listing.
pub fn device_from_line(line: &[char]) -> (device: Option<Device>)
    ensures
        match device {
            Some(d) => parse_device_line(line@) == Some(d@),
            None => parse_device_line(line@) is None,
        },
{
    let tokens = split_words(line);
    if tokens.len() < 2 {
        return None;
    }
    let serial = string_of(tokens[0].as_slice());
    let state = string_of(tokens[1].as_slice());
    let model = find_model(&tokens);
    Some(Device { serial, state, model })
}

/// Parses the listing that the debug bridge prints.
pub fn parse_device_listing(listing: &str) -> (devices: Vec<Device>)
    ensures
        device_views(devices@) == parse_devices(listing@),
{
    let chars = chars_of(listing);
    let all = split_lines(chars.as_slice());
    let mut devices: Vec<Device> = Vec::new();
    if all.len() == 0 {
        assert(device_views(devices@) =~= parse_devices(listing@));
        return devices;
    }
    let ghost body = device_lines(listing@);
    let mut i: usize = 1;
    assert(body.take(0).filter_map(device_of_line()) =~= Seq::<DeviceView>::empty());
    assert(device_views(devices@) =~= Seq::<DeviceView>::empty());
    while i < all.len()
        invariant
            1 <= i <= all.len(),
            seqs(all@) == lines(listing@),
            body == device_lines(listing@),
            device_views(devices@) == body.take(i - 1).filter_map(device_of_line()),
        decreases all.len() - i,
    {
        let ghost before = device_views(devices@);
        proof {
            body.lemma_filter_map_take_succ(device_of_line(), i - 1);
        }
        assert(body[i - 1] == all@[i as int]@);
        match device_from_line(all[i].as_slice()) {
            Some(device) => {
                devices.push(device);
                assert(device_views(devices@) =~= before.push(device@));
            },
            None => {},
        }
        i += 1;
    }
    assert(body.take(i - 1) =~= body);
    devices
}

/// The command that asks the debug bridge for its long listing.
pub fn list_adb_devices_command() -> (cmd: ToolCommand)
    ensures
        cmd@.program == "adb"@,
        cmd@.args == seq!["devices"@, "-l"@],
{
    let cmd = command("adb", &["devices", "-l"]);
    assert(cmd@.args =~= seq!["devices"@, "-l"@]);
    cmd
}

/// Turns the outcome of the listing tool into the list of devices.
pub fn list_adb_devices(outcome: ToolOutcome) -> (r: Result<Vec<Device>, String>)
    ensures
        enumeration_view(r) == enumeration(outcome),
{
    match outcome {
        Err(reason) => Err(reason),
        Ok(output) => if output.success {
            Ok(parse_device_listing(output.stdout.as_str()))
        } else {
            Err(output.stderr)
        },
    }
}

} // verus!
