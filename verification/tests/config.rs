use kafka_relay::KafkaConfig;

#[test]
fn test_kafka_config() {
    let config = KafkaConfig::new(
        &vec!["localhost:9092".to_string()],
        &"test-read".to_string(),
        &"test-write".to_string(),
    );
    assert_eq!(config.brokers, vec!["localhost:9092".to_string()]);
    assert_eq!(config.read_topic, "test-read".to_string());
    assert_eq!(config.write_topic, "test-write".to_string());
}

#[test]
fn test_kafka_config_display() {
    let config = KafkaConfig::new(
        &vec!["localhost:9092".to_string()],
        &"test-read".to_string(),
        &"test-write".to_string(),
    );
    assert_eq!(
        config.to_display_string(),
        "KafkaConfig with:\n \
                brokers: [\"localhost:9092\"],\n \
                read_topic: test-read,\n \
                write_topic: test-write\n"
    );
}

#[test]
fn test_kafka_config_display_escapes_addresses() {
    let config = KafkaConfig::new(
        &vec!["a\"b\\c:1".to_string()],
        &"r".to_string(),
        &"w".to_string(),
    );
    assert_eq!(
        config.to_display_string(),
        "KafkaConfig with:\n brokers: [\"a\\\"b\\\\c:1\"],\n read_topic: r,\n write_topic: w\n"
    );
}

#[test]
fn test_kafka_config_display_two_brokers() {
    let config = KafkaConfig::new(
        &vec!["a:1".to_string(), "b:2".to_string()],
        &"r".to_string(),
        &"w".to_string(),
    );
    assert_eq!(
        config.to_display_string(),
        "KafkaConfig with:\n brokers: [\"a:1\", \"b:2\"],\n read_topic: r,\n write_topic: w\n"
    );
}
