use image::codecs::jpeg::JpegEncoder;
use image::ExtendedColorType;
use papier::fetch::{Fetch, FetchAction, FetchEvent, ATTEMPTS, GAVE_UP, URL};
use papier::picture::{DecodeError, Picture};

fn jpeg() -> Vec<u8> {
    let mut file = Vec::new();
    JpegEncoder::new(&mut file)
        .encode(&[128; 48], 4, 4, ExtendedColorType::Rgb8)
        .unwrap();
    file
}

#[test]
fn settings() {
    assert_eq!(ATTEMPTS, 10);
    assert_eq!(
        URL,
        "https://bing.biturl.top?format=image&resolution=UHD&mkt=random"
    );
    assert_eq!(GAVE_UP, "failed to fetch image");
}

#[test]
fn no_attempts_no_download() {
    let mut search = Fetch::new(0);
    assert_eq!(search.next(FetchEvent::Begun), FetchAction::GiveUp);
}

#[test]
fn a_picture_ends_the_search() {
    let mut search = Fetch::new(ATTEMPTS);
    assert_eq!(search.next(FetchEvent::Begun), FetchAction::Download);
    let downloaded = FetchEvent::Downloaded { file: jpeg() };
    match search.next(downloaded) {
        FetchAction::Finish { picture, file } => {
            assert_eq!((picture.width, picture.height), (4, 4));
            assert_eq!(file, jpeg());
        }
        other => panic!("{other:?}"),
    }
}

#[test]
fn a_failed_download_is_followed_by_a_wait() {
    let mut search = Fetch::new(3);
    assert_eq!(search.next(FetchEvent::Begun), FetchAction::Download);
    assert_eq!(
        search.next(FetchEvent::DownloadFailed),
        FetchAction::Sleep { seconds: 1 }
    );
    assert_eq!(search.retry, 2);
    assert_eq!(search.next(FetchEvent::Slept), FetchAction::Download);
}

#[test]
fn a_file_that_is_no_picture_is_followed_by_another_download() {
    let mut search = Fetch::new(2);
    assert_eq!(search.next(FetchEvent::Begun), FetchAction::Download);
    let junk = FetchEvent::Downloaded {
        file: b"junk".to_vec(),
    };
    assert_eq!(search.next(junk.clone()), FetchAction::Download);
    assert_eq!(search.next(junk), FetchAction::GiveUp);
}

#[test]
fn the_last_failure_is_followed_by_a_wait_too() {
    let mut search = Fetch::new(1);
    assert_eq!(search.next(FetchEvent::Begun), FetchAction::Download);
    assert_eq!(
        search.next(FetchEvent::DownloadFailed),
        FetchAction::Sleep { seconds: 1 }
    );
    assert_eq!(search.next(FetchEvent::Slept), FetchAction::GiveUp);
}

#[test]
fn a_search_downloads_no_more_often_than_it_may() {
    let mut search = Fetch::new(ATTEMPTS);
    let mut action = search.next(FetchEvent::Begun);
    let mut downloads = 0;
    let mut waits = 0;
    loop {
        action = match action {
            FetchAction::Download => {
                downloads += 1;
                if downloads % 2 == 0 {
                    search.next(FetchEvent::DownloadFailed)
                } else {
                    search.next(FetchEvent::Downloaded { file: vec![1, 2] })
                }
            }
            FetchAction::Sleep { .. } => {
                waits += 1;
                search.next(FetchEvent::Slept)
            }
            FetchAction::Finish { .. } => panic!("there is no picture"),
            FetchAction::GiveUp => break,
        };
    }
    assert_eq!(downloads, 10);
    assert_eq!(waits, 5);
}

#[test]
fn the_first_picture_is_taken() {
    let mut search = Fetch::new(ATTEMPTS);
    let mut downloads = 0;
    let mut action = search.next(FetchEvent::Begun);
    loop {
        action = match action {
            FetchAction::Download => {
                downloads += 1;
                let file = if downloads < 4 { vec![] } else { jpeg() };
                search.next(FetchEvent::Downloaded { file })
            }
            FetchAction::Finish { .. } => break,
            other => panic!("{other:?}"),
        };
    }
    assert_eq!(downloads, 4);
}

#[test]
fn what_follows_a_read_file() {
    let picture = Picture {
        width: 1,
        height: 1,
        pixels: vec![[1, 2, 3, 4]],
    };
    let mut search = Fetch::new(2);
    assert_eq!(
        search.decoded(vec![5], Ok(picture.clone())),
        FetchAction::Finish {
            picture,
            file: vec![5]
        }
    );
    assert_eq!(search.retry, 2);
    assert_eq!(
        search.decoded(vec![5], Err(DecodeError::Pixels)),
        FetchAction::Download
    );
    assert_eq!(
        search.decoded(vec![5], Err(DecodeError::Header)),
        FetchAction::GiveUp
    );
}
