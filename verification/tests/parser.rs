use nettopbox::m3u::{Playlist, Stream};

#[test]
fn test_from_string() {
    let data = r#"
            #EXTM3U x-tvg-url="https://i.mjh.nz/nz/epg.xml.gz"

            #EXTINF:-1 channel-id="mjh-tvnz-1" tvg-id="mjh-tvnz-1" tvg-logo="https://i.mjh.nz/.images/tvnz-1.png" tvg-chno="1" group-title="Nz" , TVNZ 1
            https://i.mjh.nz/tvnz-1.m3u8

            #EXTINF:-1 channel-id="mjh-tvnz-2" tvg-id="mjh-tvnz-2" tvg-logo="https://i.mjh.nz/.images/tvnz-2.png" tvg-chno="2" group-title="Nz" , TVNZ 2
            https://i.mjh.nz/tvnz-2.m3u8

            #EXTINF:-1 channel-id="mjh-three" tvg-id="mjh-three" tvg-logo="https://i.mjh.nz/.images/three.png" tvg-chno="3" group-title="Nz" , Three
            https://i.mjh.nz/three.m3u8

            #EXTINF:-1 channel-id="mjh-bravo" tvg-id="mjh-bravo" tvg-logo="https://i.mjh.nz/.images/bravo.png" tvg-chno="4" group-title="Nz" , Bravo
            https://i.mjh.nz/bravo.m3u8

            #EXTINF:-1 channel-id="mjh-maori-tv" tvg-id="mjh-maori-tv" tvg-logo="https://i.mjh.nz/.images/maori-tv.png" tvg-chno="5" group-title="Nz" , Whakaata Māori
            https://i.mjh.nz/maori-tv.m3u8

            #EXTINF:-1 channel-id="mjh-tvnz-duke" tvg-id="mjh-tvnz-duke" tvg-logo="https://i.mjh.nz/.images/tvnz-duke.png" tvg-chno="6" group-title="Nz" , DUKE
            https://i.mjh.nz/tvnz-duke.m3u8

            #EXTINF:-1 channel-id="mjh-eden" tvg-id="mjh-eden" tvg-logo="https://i.mjh.nz/.images/eden.png" tvg-chno="8" group-title="Nz" , eden
            https://i.mjh.nz/eden.m3u8
        "#;

    let playlist = Playlist::from_text(data);

    assert_eq!(playlist.streams.len(), 7);
    assert_eq!(
        playlist.streams[0],
        Stream {
            url: "https://i.mjh.nz/tvnz-1.m3u8".to_string(),
            id: Some("mjh-tvnz-1".to_string()),
            name: Some("TVNZ 1".to_string()),
            description: Some("TVNZ 1".to_string()),
            channel_number: Some("1".to_string()),
            logo: Some("https://i.mjh.nz/.images/tvnz-1.png".to_string()),
            group: Some("Nz".to_string()),
            epg_id: Some("mjh-tvnz-1".to_string()),
            metadata: Vec::new(),
        }
    );
}

#[test]
fn parsing_twice_yields_equal_playlists() {
    let data = "#EXTINF:-1 tvg-chno=\"1\" tvg-id=\"a\" , One\nhttp://x/1.m3u8\n#EXTINF:-1 tvg-chno=\"2\" , Two\nhttp://x/2.m3u8\n";
    let first = Playlist::from_text(data);
    let second = Playlist::from_text(data);
    assert_eq!(first, second);
}

#[test]
fn output_order_matches_manifest_order() {
    let data = "#EXTINF:-1 , C\nhttp://x/c\n#EXTINF:-1 , A\nhttp://x/a\n#EXTINF:-1 , B\nhttp://x/b\n";
    let playlist = Playlist::from_text(data);
    let urls: Vec<&str> = playlist.streams.iter().map(|s| s.url.as_str()).collect();
    assert_eq!(urls, vec!["http://x/c", "http://x/a", "http://x/b"]);
}

#[test]
fn empty_input_yields_empty_playlist() {
    let playlist = Playlist::from_text("");
    assert_eq!(playlist.streams.len(), 0);
}

#[test]
fn whitespace_only_input_yields_empty_playlist() {
    let playlist = Playlist::from_text("   \n\t\n  \n");
    assert_eq!(playlist.streams.len(), 0);
}

#[test]
fn directive_without_payload_is_dropped() {
    let playlist = Playlist::from_text("#EXTINF:-1 , Lonely\n");
    assert_eq!(playlist.streams.len(), 0);
}

#[test]
fn consecutive_directives_drop_the_first() {
    let data = "#EXTINF:-1 , First\n#EXTINF:-1 , Second\nhttp://x/2\n";
    let playlist = Playlist::from_text(data);
    assert_eq!(playlist.streams.len(), 1);
    assert_eq!(playlist.streams[0].url, "http://x/2");
    assert_eq!(playlist.streams[0].name.as_deref(), Some("Second"));
}

#[test]
fn payload_with_no_directive_is_dropped() {
    let playlist = Playlist::from_text("http://x/naked\n#EXTM3U\nhttp://x/other\n");
    assert_eq!(playlist.streams.len(), 0);
}

#[test]
fn tvg_url_overrides_payload_line() {
    let data = "#EXTINF:-1 tvg-url=\"http://override/\" , Name\nhttp://payload/\n";
    let playlist = Playlist::from_text(data);
    assert_eq!(playlist.streams.len(), 1);
    assert_eq!(playlist.streams[0].url, "http://override/");
}

#[test]
fn last_occurrence_of_a_key_wins() {
    let data = "#EXTINF:-1 tvg-name=\"Old\" tvg-name=\"New\" , Desc\nhttp://x/\n";
    let playlist = Playlist::from_text(data);
    assert_eq!(playlist.streams[0].name.as_deref(), Some("New"));
}

#[test]
fn keys_are_matched_case_insensitively() {
    let data = "#EXTINF:-1 TVG-ID=\"abc\" Tvg-Chno=\"7\"\nhttp://x/\n";
    let playlist = Playlist::from_text(data);
    assert_eq!(playlist.streams[0].id.as_deref(), Some("abc"));
    assert_eq!(playlist.streams[0].channel_number.as_deref(), Some("7"));
}

#[test]
fn unrecognized_keys_go_to_metadata_under_original_spelling() {
    let data = "#EXTINF:-1 X-Custom=\"v1\" tvg-id=\"a\"\nhttp://x/\n";
    let playlist = Playlist::from_text(data);
    assert_eq!(
        playlist.streams[0].metadata,
        vec![("X-Custom".to_string(), "v1".to_string())]
    );
}

#[test]
fn description_names_an_unnamed_stream() {
    let data = "#EXTINF:-1 tvg-id=\"a\" , Some Show\nhttp://x/\n";
    let playlist = Playlist::from_text(data);
    assert_eq!(playlist.streams[0].description.as_deref(), Some("Some Show"));
    assert_eq!(playlist.streams[0].name.as_deref(), Some("Some Show"));
}

#[test]
fn explicit_name_is_not_replaced_by_description() {
    let data = "#EXTINF:-1 tvg-name=\"Given\" , Trailing\nhttp://x/\n";
    let playlist = Playlist::from_text(data);
    assert_eq!(playlist.streams[0].name.as_deref(), Some("Given"));
    assert_eq!(playlist.streams[0].description.as_deref(), Some("Trailing"));
}

#[test]
fn explicit_id_doubles_as_epg_id() {
    let data = "#EXTINF:-1 tvg-id=\"chan9\"\nhttp://x/\n";
    let playlist = Playlist::from_text(data);
    assert_eq!(playlist.streams[0].epg_id.as_deref(), Some("chan9"));
}

#[test]
fn explicit_epg_id_is_kept() {
    let data = "#EXTINF:-1 tvg-id=\"chan9\" tvg-epgid=\"epg7\"\nhttp://x/\n";
    let playlist = Playlist::from_text(data);
    assert_eq!(playlist.streams[0].epg_id.as_deref(), Some("epg7"));
}

#[test]
fn empty_attribute_value_is_not_a_match() {
    let data = "#EXTINF:-1 tvg-id=\"\" tvg-name=\"n\"\nhttp://x/\n";
    let playlist = Playlist::from_text(data);
    assert_eq!(playlist.streams[0].id, None);
    assert_eq!(playlist.streams[0].name.as_deref(), Some("n"));
}

#[test]
fn entry_with_no_attributes_still_produces_a_stream() {
    let data = "#EXTINF:-1\nhttp://x/bare\n";
    let playlist = Playlist::from_text(data);
    assert_eq!(playlist.streams.len(), 1);
    let s = &playlist.streams[0];
    assert_eq!(s.url, "http://x/bare");
    assert_eq!(s.id, None);
    assert_eq!(s.name, None);
    assert_eq!(s.description, None);
    assert_eq!(s.metadata, Vec::new());
}

#[test]
fn stream_new_holds_only_the_url() {
    let s = Stream::new("http://x/only");
    assert_eq!(s.url, "http://x/only");
    assert_eq!(s.id, None);
    assert_eq!(s.epg_id, None);
    assert_eq!(s.metadata, Vec::new());
}
