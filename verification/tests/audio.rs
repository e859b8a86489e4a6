use plsdo::audio::{
    find_matching_output, parse_friendly_name, AudioError, AudioOutput, AudioOutputFriendlyName,
    AudioState,
};
use plsdo::system_atlas::system_atlas;

fn output(name: &str, description: &str, friendly: AudioOutputFriendlyName) -> AudioOutput {
    AudioOutput { name: name.into(), description: description.into(), friendly_name: friendly }
}

#[test]
fn friendly_names_parse_case_insensitively() {
    assert_eq!(parse_friendly_name("headphones"), Some(AudioOutputFriendlyName::Headphones));
    assert_eq!(parse_friendly_name("HeadPhones"), Some(AudioOutputFriendlyName::Headphones));
    assert_eq!(parse_friendly_name("SPEAKERS"), Some(AudioOutputFriendlyName::Speakers));
    assert_eq!(parse_friendly_name("earbuds"), Some(AudioOutputFriendlyName::Earbuds));
    assert_eq!(parse_friendly_name("unrecognized"), Some(AudioOutputFriendlyName::Unrecognized));
    assert_eq!(parse_friendly_name("laptop"), None);
}

#[test]
fn matching_by_friendly_name_and_substring() {
    let o = output("alsa_output.usb-1", "Fancy Cans", AudioOutputFriendlyName::Headphones);
    assert!(o.is_matching("Headphones"));
    assert!(o.is_matching("usb-1"));
    assert!(o.is_matching("Fancy"));
    assert!(!o.is_matching("speakers"));
}

#[test]
fn find_matching_output_picks_the_single_match() {
    let outputs = vec![
        output("alsa_output.usb-1", "Cans", AudioOutputFriendlyName::Headphones),
        output("alsa_output.pci-2", "Desk", AudioOutputFriendlyName::Speakers),
    ];
    let found = find_matching_output(&outputs, "speakers").unwrap();
    assert_eq!(found.name, "alsa_output.pci-2");
}

#[test]
fn find_matching_output_rejects_no_match() {
    let outputs = vec![output("a", "b", AudioOutputFriendlyName::Unrecognized)];
    assert_eq!(find_matching_output(&outputs, "zz"), Err(AudioError::NoMatchingOutput));
}

#[test]
fn find_matching_output_rejects_ambiguity() {
    let outputs = vec![
        output("alsa_output.usb-1", "Cans", AudioOutputFriendlyName::Headphones),
        output("alsa_output.usb-2", "More cans", AudioOutputFriendlyName::Headphones),
    ];
    assert_eq!(
        find_matching_output(&outputs, "headphones"),
        Err(AudioError::MultipleMatchingOutputs)
    );
}

#[test]
fn audio_state_carries_plain_values() {
    let s = AudioState { volume: 40, is_muted: false, output: AudioOutputFriendlyName::Speakers };
    assert_eq!(s.volume, 40);
    assert!(!s.is_muted);
}

#[test]
fn system_atlas_names_the_aggregator_socket() {
    let atlas = system_atlas();
    assert_eq!(atlas.ytdl_aggregator_socket, "/tmp/plsdo-ytdl-aggregator.sock");
    assert_eq!(atlas.main_dotfiles, "/home/rg/.dotfiles");
}
