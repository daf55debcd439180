use majiang::frontend::{parse_authorized_user_id, response_topic, route_request, Route, TopicMng};
use majiang::session::frame_for_user;

#[test]
fn room_requests_are_routed() {
    assert_eq!(route_request(10, 1), Route::FreeTopic);
    assert_eq!(route_request(10, 2), Route::RoomTopic);
    assert_eq!(route_request(10, 4), Route::RoomTopic);
    assert_eq!(route_request(20, 1), Route::Unhandled);
}

#[test]
fn answers_come_back_on_the_response_topic() {
    assert_eq!(response_topic(&"game3".to_string()), "game3_rsp");
    assert_eq!(response_topic(&String::new()), "_rsp");
}

#[test]
fn room_topics_are_remembered() {
    let mut t = TopicMng::new("redis://x".to_string(), "topiclist:".to_string());
    assert_eq!(t.topic_list_key(), "topiclist:");
    assert_eq!(t.redis_uri(), "redis://x");
    assert_eq!(t.cached_room_topic(&"R1".to_string()), None);
    t.remember_room_topic(&"R1".to_string(), &"topicA".to_string());
    t.remember_room_topic(&"R2".to_string(), &"topicB".to_string());
    assert_eq!(t.cached_room_topic(&"R1".to_string()), Some("topicA".to_string()));
    t.remember_room_topic(&"R1".to_string(), &"topicC".to_string());
    assert_eq!(t.cached_room_topic(&"R1".to_string()), Some("topicC".to_string()));
    assert_eq!(t.cached_room_topic(&"R2".to_string()), Some("topicB".to_string()));
}

#[test]
fn user_rooms_are_remembered() {
    let mut t = TopicMng::new("redis://x".to_string(), "k".to_string());
    assert_eq!(t.cached_user_room(5), None);
    t.remember_user_room(5, &"R1".to_string());
    assert_eq!(t.cached_user_room(5), Some("R1".to_string()));
    t.remember_user_room(5, &"R2".to_string());
    assert_eq!(t.cached_user_room(5), Some("R2".to_string()));
    assert_eq!(t.cached_user_room(6), None);
}

#[test]
fn tagged_messages_name_their_user() {
    let framed = frame_for_user(&-42, vec![1, 2, 3]);
    assert_eq!(parse_authorized_user_id(&framed), -42);
}
