use blitz::paths::{
    app_dir_path, banner_path, blacklist_path, detection_model_path, init_path, join_to_app_dir_path,
    player_scrshot_path, recognition_model_path, scrshot_path,
};

fn home() -> Option<String> {
    Some(String::from("/home/u"))
}

#[test]
fn app_dir_is_inside_home() {
    assert_eq!(app_dir_path(&home()), Some(String::from("/home/u/blitz-app")));
    assert_eq!(app_dir_path(&None), None);
}

#[test]
fn files_of_the_app_dir() {
    assert_eq!(init_path(&home()).unwrap(), "/home/u/blitz-app/init");
    assert_eq!(blacklist_path(&home()).unwrap(), "/home/u/blitz-app/blacklist.json");
    assert_eq!(scrshot_path(&home()).unwrap(), "/home/u/blitz-app/players.png");
    assert_eq!(detection_model_path(&home()).unwrap(), "/home/u/blitz-app/text-detection.rten");
    assert_eq!(recognition_model_path(&home()).unwrap(), "/home/u/blitz-app/text-recognition.rten");
    assert_eq!(banner_path(&home()).unwrap(), "/home/u/blitz-app/banner.png");
    assert_eq!(join_to_app_dir_path(&home(), "x.txt").unwrap(), "/home/u/blitz-app/x.txt");
    assert_eq!(blacklist_path(&None), None);
}

#[test]
fn player_crop_names_carry_the_index() {
    assert_eq!(player_scrshot_path(&home(), 0).unwrap(), "/home/u/blitz-app/player-crop-0.png");
    assert_eq!(player_scrshot_path(&home(), 5).unwrap(), "/home/u/blitz-app/player-crop-5.png");
    assert_eq!(player_scrshot_path(&home(), 1234).unwrap(), "/home/u/blitz-app/player-crop-1234.png");
    assert_eq!(player_scrshot_path(&home(), -7).unwrap(), "/home/u/blitz-app/player-crop--7.png");
    assert_eq!(
        player_scrshot_path(&home(), i32::MIN).unwrap(),
        "/home/u/blitz-app/player-crop--2147483648.png"
    );
    assert_eq!(player_scrshot_path(&None, 1), None);
}
