use space_server::command::run_command;
use space_server::wire::{
    decode_command, encode_command, payload_len, state_frame, steer_frame, Command,
};
use space_server::world::{Ballistic, Space};

#[derive(Debug, Clone, Copy, PartialEq)]
struct Point {
    x: f64,
    y: f64,
}

impl Ballistic for Point {
    fn projectile(&self, _angle: u64) -> Point {
        *self
    }
}

#[test]
fn decode_known_frames() {
    assert_eq!(Command::Spawn(4), decode_command(&vec![0, 4]));
    assert_eq!(Command::Remove(9), decode_command(&vec![1, 9]));
    assert_eq!(
        Command::Steer(3, Some(0x0102_0304_0506_0708)),
        decode_command(&vec![2, 3, 1, 1, 2, 3, 4, 5, 6, 7, 8])
    );
    assert_eq!(Command::Steer(3, None), decode_command(&vec![2, 3, 0, 1, 2, 3, 4, 5, 6, 7, 8]));
    assert_eq!(
        Command::Fire(2, 0xff00_0000_0000_00aa),
        decode_command(&vec![3, 2, 0xff, 0, 0, 0, 0, 0, 0, 0xaa])
    );
}

#[test]
fn malformed_frames_clear_fallback_steering() {
    assert_eq!(Command::Steer(1, None), decode_command(&vec![]));
    assert_eq!(Command::Steer(1, None), decode_command(&vec![0]));
    assert_eq!(Command::Steer(1, None), decode_command(&vec![2, 5, 1, 0]));
    assert_eq!(Command::Steer(1, None), decode_command(&vec![9, 5]));
    assert_eq!(Command::Steer(1, None), decode_command(&vec![0, 5, 5]));
}

#[test]
fn steering_angle_is_big_endian_ieee754() {
    let angle = std::f64::consts::FRAC_PI_2;
    let mut client = [0u8; 9];
    client[0] = 1;
    client[1..].copy_from_slice(&angle.to_be_bytes());
    let frame = steer_frame(6, &client);
    assert_eq!(11, frame.len());
    match decode_command(&frame) {
        Command::Steer(6, Some(bits)) => assert_eq!(angle, f64::from_bits(bits)),
        other => panic!("unexpected {:?}", other),
    }
}

#[test]
fn encode_then_decode_gives_command_back() {
    let commands = vec![
        Command::Spawn(0),
        Command::Remove(255),
        Command::Steer(7, None),
        Command::Steer(7, Some(2.5f64.to_bits())),
        Command::Fire(8, (-1.25f64).to_bits()),
    ];
    for c in commands {
        assert_eq!(c, decode_command(&encode_command(&c)));
    }
    assert_eq!(vec![0, 12], encode_command(&Command::Spawn(12)));
    assert_eq!(vec![1, 12], encode_command(&Command::Remove(12)));
}

#[test]
fn state_frame_has_length_prefix() {
    let frame = state_frame(&vec![9, 8, 7]).unwrap();
    assert_eq!(vec![0, 0, 0, 3, 9, 8, 7], frame);
    let big = vec![1u8; 300];
    let frame = state_frame(&big).unwrap();
    assert_eq!(&[0, 0, 1, 44], &frame[..4]);
    assert_eq!(300, payload_len(&[frame[0], frame[1], frame[2], frame[3]]));
    assert_eq!(vec![0, 0, 0, 0], state_frame(&vec![]).unwrap());
}

#[test]
fn run_command_applies_each_operation() {
    let mut space: Space<Point> = Space::new();
    run_command(&mut space, vec![0, 3], Point { x: 1.0, y: 2.0 });
    assert_eq!(1, space.ship_count());
    assert_eq!(3, space.ship(0).id);
    assert_eq!(Point { x: 1.0, y: 2.0 }, space.ship(0).body);
    run_command(&mut space, vec![0, 3], Point { x: 5.0, y: 5.0 });
    assert_eq!(1, space.ship_count());
    let mut steer = vec![2, 3, 1];
    steer.extend_from_slice(&0.75f64.to_be_bytes());
    run_command(&mut space, steer, Point { x: 0.0, y: 0.0 });
    assert_eq!(Some(0.75f64.to_bits()), space.ship(0).steering);
    let mut fire = vec![3, 3];
    fire.extend_from_slice(&0.0f64.to_be_bytes());
    run_command(&mut space, fire, Point { x: 0.0, y: 0.0 });
    assert_eq!(1, space.bullet_count());
    assert_eq!(3, space.bullet(0).owner_id);
    run_command(&mut space, vec![1, 3], Point { x: 0.0, y: 0.0 });
    assert_eq!(0, space.ship_count());
}

#[test]
fn run_command_malformed_clears_player_one() {
    let mut space: Space<Point> = Space::new();
    run_command(&mut space, vec![0, 1], Point { x: 0.0, y: 0.0 });
    space.move_ship(1, Some(3.0f64.to_bits()));
    run_command(&mut space, vec![42], Point { x: 0.0, y: 0.0 });
    assert_eq!(None, space.ship(0).steering);
    assert_eq!(1, space.ship_count());
}
