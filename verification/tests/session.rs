use lambda_dx::session::{button_to_slot, region_pos_to_sensor, Empty, Session};
use lambda_dx::simai_io::{sensor_to_lane, slot_to_lane, touch_to_lane, OuterSlot, SensorArea};

#[test]
fn sessions_keep_their_handle() {
    let empty: Session<Empty> = Session::from_handle(7);
    assert_eq!(empty.handle(), 7);
    let (loaded, reply) = empty.loaded(Ok(())).unwrap();
    assert_eq!(loaded.handle(), 7);
    assert_eq!(reply.json, "{\"ok\":true}");
    let (empty, reply) = loaded.unloaded(Ok(())).unwrap();
    assert_eq!(empty.handle(), 7);
    assert_eq!(reply.json, "{\"ok\":true}");
    let err = empty.loaded(Err("{\"error\":1}".to_string())).err().unwrap();
    assert_eq!(err.json, "{\"error\":1}");
}

#[test]
fn buttons_and_sensors() {
    assert_eq!(button_to_slot(0), OuterSlot::S1);
    assert_eq!(button_to_slot(9), OuterSlot::S2);
    assert_eq!(slot_to_lane(button_to_slot(7)), 8);
    assert_eq!(region_pos_to_sensor('A', 0), SensorArea::A1);
    assert_eq!(region_pos_to_sensor('b', 9), SensorArea::B2);
    assert_eq!(region_pos_to_sensor('C', 3), SensorArea::C);
    assert_eq!(region_pos_to_sensor('x', 3), SensorArea::C);
    assert_eq!(region_pos_to_sensor('E', 7), SensorArea::E8);
    for region in ['A', 'B', 'C', 'D', 'E'] {
        for position in 0..16u8 {
            let lane = sensor_to_lane(region_pos_to_sensor(region, position));
            assert_eq!(Some(lane), touch_to_lane(region, position));
        }
    }
}
